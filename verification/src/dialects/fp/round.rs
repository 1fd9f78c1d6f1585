//! A rounded evaluation: a region that says what the result is to be, under a
//! contract that says how it may be computed.
use vstd::prelude::*;
use crate::attributes::AttributeValue;
use crate::binding::ids_of;
use crate::context::Context;
use crate::context::ContextView;
use crate::context::OpHandle;
use crate::dialects::builtin::fn_type::same_types;
use crate::dialects::fp::contract::arithmetic_of;
use crate::dialects::fp::contract::contract_of;
use crate::dialects::fp::contract::pairs_of;
use crate::dialects::fp::contract::ArithmeticSemantics;
use crate::dialects::fp::contract::EvaluationContract;
use crate::error::either;
use crate::error::first_failure;
use crate::error::first_failure_stays;
use crate::error::invalid;
use crate::error::verdict;
use crate::error::Error;
use crate::ids::OpId;
use crate::ids::RegionId;
use crate::ids::TypeId;
use crate::ids::ValueId;
use crate::interfaces::Binding;
use crate::interfaces::IndexRange;
use crate::interfaces::SameOperandAndResultType;
use crate::seqs::holds_value;
use crate::text::cat3;
use crate::text::decimal;
use crate::text::decimal_string;
use crate::text::same;
use crate::tree::all_trees;
use crate::tree::children_are_live;
use crate::tree::push_reversed;
use crate::tree::stack_step;
use crate::tree::stacked;
use crate::tree::walk_of;
use crate::tree::Kids;
use crate::ty::Type;

use crate::ir_formatter::IRFormatter;
use crate::parse::reads;
use crate::parse::text::token_at;
use crate::parse::text::Parser;
use crate::parse::types::trees_of;
use crate::parse::types::type_at;
use crate::parse::types::types_at;
use crate::parse::types::TypeSyntax;
use crate::parse::types::TypeTree;
use crate::parse::ParseResult;
use crate::parse::Parsed;

verus! {

/// A rounded evaluation.
#[derive(Debug, Clone, Copy)]
pub struct RoundOp(pub OpHandle);

/// A value no transform may look through.
#[derive(Debug, Clone, Copy)]
pub struct FenceOp(pub OpHandle);

impl SameOperandAndResultType for FenceOp {

}

/// What a state orders the accesses of.
#[derive(Debug, Clone, Copy, PartialEq, Eq, Structural)]
pub enum StateResource {
    Memory,
    FpEnv,
}

/// How an operation uses a resource.
#[derive(Debug, Clone, Copy, PartialEq, Eq, Structural)]
pub enum ResourceAccess {
    Read,
    Change,
}

/// How an operation uses a resource, and the states it observes and leaves.
#[derive(Debug)]
pub struct ResourceEffect {
    pub resource: StateResource,
    pub access: ResourceAccess,
    pub observed: Vec<ValueId>,
    pub produced: Vec<ValueId>,
}

/// How a structured operation carries one state: the state it enters with, the
/// ports that stand for it inside, the states its regions leave with, the state
/// the next iteration takes where there is one, and the state left after it.
#[derive(Debug)]
pub struct StateChain {
    pub entered: ValueId,
    pub ports: Vec<ValueId>,
    pub exits: Vec<ValueId>,
    pub next: Option<ValueId>,
    pub left: ValueId,
}

/// What one operation does to the resources.
#[derive(Debug)]
pub struct OpEffects {
    pub op: OpId,
    pub effects: Vec<ResourceEffect>,
    pub chains: Vec<StateChain>,
}

/// What a use of a resource says.
pub ghost struct EffectView {
    pub resource: StateResource,
    pub access: ResourceAccess,
    pub observed: Seq<ValueId>,
    pub produced: Seq<ValueId>,
}

/// What a carried state says.
pub ghost struct ChainView {
    pub entered: ValueId,
    pub ports: Seq<ValueId>,
    pub exits: Seq<ValueId>,
    pub next: Option<ValueId>,
    pub left: ValueId,
}

/// What one operation does to the resources.
pub ghost struct OpEffectsView {
    pub op: OpId,
    pub effects: Seq<EffectView>,
    pub chains: Seq<ChainView>,
}

impl View for ResourceEffect {
    type V = EffectView;

    open spec fn view(&self) -> EffectView {
        EffectView {
            resource: self.resource,
            access: self.access,
            observed: self.observed@,
            produced: self.produced@,
        }
    }
}

impl View for StateChain {
    type V = ChainView;

    open spec fn view(&self) -> ChainView {
        ChainView {
            entered: self.entered,
            ports: self.ports@,
            exits: self.exits@,
            next: self.next,
            left: self.left,
        }
    }
}

impl View for OpEffects {
    type V = OpEffectsView;

    open spec fn view(&self) -> OpEffectsView {
        OpEffectsView {
            op: self.op,
            effects: self.effects@.map_values(|e: ResourceEffect| e@),
            chains: self.chains@.map_values(|c: StateChain| c@),
        }
    }
}

/// What the operations of a table do.
pub open spec fn table_view(table: Seq<OpEffects>) -> Seq<OpEffectsView> {
    table.map_values(|e: OpEffects| e@)
}

/// Which types are states, and of what.
pub open spec fn resource_of(types: Seq<(TypeId, StateResource)>, ty: TypeId) -> Option<StateResource>
    decreases types.len(),
{
    if types.len() == 0 {
        None
    } else if types[0].0 == ty {
        Some(types[0].1)
    } else {
        resource_of(types.skip(1), ty)
    }
}

fn resource_in(types: &Vec<(TypeId, StateResource)>, ty: TypeId) -> (r: Option<StateResource>)
    ensures
        r == resource_of(types@, ty),
{
    let mut i: usize = 0;
    assert(types@.skip(0) =~= types@);
    while i < types.len()
        invariant
            i <= types.len(),
            resource_of(types@.skip(i as int), ty) == resource_of(types@, ty),
        decreases types.len() - i,
    {
        assert(types@.skip(i as int).skip(1) =~= types@.skip(i + 1));
        if types[i].0 == ty {
            return Some(types[i].1);
        }
        i += 1;
    }
    None
}

impl ContextView {
    /// The states of a resource among `values`.
    pub open spec fn states_for(
        self,
        types: Seq<(TypeId, StateResource)>,
        values: Seq<ValueId>,
        resource: StateResource,
    ) -> Seq<ValueId>
        decreases values.len(),
    {
        if values.len() == 0 {
            values
        } else if resource_of(types, self.type_of(values.last())) == Some(resource) {
            self.states_for(types, values.drop_last(), resource).push(values.last())
        } else {
            self.states_for(types, values.drop_last(), resource)
        }
    }

    /// The types of the values that are no states.
    pub open spec fn numeric_types(
        self,
        types: Seq<(TypeId, StateResource)>,
        values: Seq<ValueId>,
    ) -> Seq<TypeId>
        decreases values.len(),
    {
        if values.len() == 0 {
            Seq::empty()
        } else if resource_of(types, self.type_of(values.last())) is None {
            self.numeric_types(types, values.drop_last()).push(self.type_of(values.last()))
        } else {
            self.numeric_types(types, values.drop_last())
        }
    }

    /// The step of a walk that does not go into another rounded evaluation.
    pub open spec fn round_kids(self) -> Kids {
        |op: OpId|
            if self.is_op(op, "fp"@, "round"@) {
                Seq::empty()
            } else {
                self.children(op)
            }
    }

    /// Whether a rounded evaluation can be read: it owns a region, everything in
    /// it exists, and walking it ends.
    pub open spec fn round_wf(self, op: OpId) -> bool {
        &&& self.sound()
        &&& self.ir.op(op) is Some
        &&& self.ir.op(op)->0.regions.len() > 0
        &&& self.ir.region(self.reference(op)) is Some
        &&& self.values_typed(self.ir.op(op)->0.operands)
        &&& self.values_typed(self.ir.op(op)->0.results)
        &&& self.values_typed(self.region_results(self.reference(op)))
        &&& all_trees(self.kids(), self.region_ops(self.reference(op)))
        &&& all_trees(self.round_kids(), self.region_ops(self.reference(op)))
    }

    /// The region that says what the result is to be.
    pub open spec fn reference(self, op: OpId) -> RegionId {
        self.ir.op(op)->0.regions[0]
    }

    /// Every operation of the reference, however deep.
    pub open spec fn reference_ops(self, op: OpId) -> Seq<OpId> {
        walk_of(self.kids(), self.region_ops(self.reference(op)))
    }

    /// Every operation of the reference outside another rounded evaluation.
    pub open spec fn own_ops(self, op: OpId) -> Seq<OpId> {
        walk_of(self.round_kids(), self.region_ops(self.reference(op)))
    }

    /// Why the ports and the yields of a rounded evaluation do not fit what it
    /// captures and produces.
    pub open spec fn round_ports_failure(self, op: OpId) -> Option<Seq<char>> {
        let o = self.ir.op(op)->0;
        let ports = self.region_ports(self.reference(op));
        let yielded = self.region_results(self.reference(op));
        if ports.len() != o.operands.len() {
            Some("fp.round must bind every capture to one reference port"@)
        } else if yielded.len() != o.results.len() {
            Some("fp.round reference yield count must match its result count"@)
        } else {
            either(
                first_failure(
                    |i: int|
                        if ports[i].ty == self.type_of(o.operands[i]) {
                            None
                        } else {
                            Some(
                                "fp.round port "@ + decimal(i as nat)
                                    + " must have its capture's type"@,
                            )
                        },
                    ports.len() as int,
                ),
                first_failure(
                    |i: int|
                        if self.type_of(yielded[i]) == self.type_of(o.results[i]) {
                            None
                        } else {
                            Some(
                                "fp.round yield "@ + decimal(i as nat)
                                    + " must have its result's type"@,
                            )
                        },
                    yielded.len() as int,
                ),
            )
        }
    }

    /// Why the results of a rounded evaluation are not of the formats its
    /// contract names.
    pub open spec fn formats_failure(
        self,
        op: OpId,
        formats: Seq<TypeId>,
        types: Seq<(TypeId, StateResource)>,
    ) -> Option<Seq<char>> {
        let numeric = self.numeric_types(types, self.ir.op(op)->0.results);
        if formats != numeric {
            Some("fp.round result formats must match its numeric results"@)
        } else if exists|i: int|
            0 <= i < numeric.len() && !(self.types[(#[trigger] numeric[i]).0 as int] is Float) {
            Some("fp.round numeric results must have floating types"@)
        } else {
            None
        }
    }

    /// What the first `n` of `ops` and their regions define.
    pub open spec fn defined_by(self, ops: Seq<OpId>, n: int) -> Seq<ValueId>
        decreases n,
    {
        if n <= 0 {
            Seq::empty()
        } else {
            self.defined_by(ops, n - 1) + self.ir.op(ops[n - 1])->0.results + self.ports_in(
                self.ir.op(ops[n - 1])->0.regions,
                self.ir.op(ops[n - 1])->0.regions.len() as int,
            )
        }
    }

    /// The ports of the first `n` of `regions`.
    pub open spec fn ports_in(self, regions: Seq<RegionId>, n: int) -> Seq<ValueId>
        decreases n,
    {
        if n <= 0 {
            Seq::empty()
        } else {
            self.ports_in(regions, n - 1) + ids_of(self.region_ports(regions[n - 1]))
        }
    }

    /// What stands inside the reference: its ports and all it defines.
    pub open spec fn local_values(self, op: OpId) -> Seq<ValueId> {
        let ops = self.reference_ops(op);
        ids_of(self.region_ports(self.reference(op))) + self.defined_by(ops, ops.len() as int)
    }

    /// Whether an operation reads only `local` values.
    pub open spec fn reads_only(self, op: OpId, local: Seq<ValueId>) -> bool {
        let operands = self.ir.op(op)->0.operands;
        forall|i: int| 0 <= i < operands.len() ==> local.contains(#[trigger] operands[i])
    }

    /// Why the reference reaches outside its ports.
    pub open spec fn captures_failure(self, op: OpId) -> Option<Seq<char>> {
        let ops = self.reference_ops(op);
        let local = self.local_values(op);
        let yielded = self.region_results(self.reference(op));
        if exists|k: int| 0 <= k < ops.len() && !self.reads_only(#[trigger] ops[k], local) {
            Some(
                "fp.round reference may read outer values only through explicit capture ports"@,
            )
        } else if exists|i: int| 0 <= i < yielded.len() && !local.contains(#[trigger] yielded[i]) {
            Some(
                "fp.round reference may yield outer values only through explicit capture ports"@,
            )
        } else {
            None
        }
    }

    /// Whether an operation says its arithmetic behaves otherwise.
    pub open spec fn behaves_otherwise(
        self,
        op: OpId,
        expected: Seq<(Seq<char>, Seq<char>)>,
    ) -> bool {
        &&& !self.is_op(op, "fp"@, "round"@)
        &&& match self.attr(op, "semantics"@) {
            Some(value) => match arithmetic_of(value) {
                Ok(actual) => actual != expected,
                Err(_) => false,
            },
            None => false,
        }
    }

    /// Why the operations of the reference do not behave as the contract says.
    pub open spec fn semantics_failure(
        self,
        op: OpId,
        expected: Seq<(Seq<char>, Seq<char>)>,
    ) -> Option<Seq<char>> {
        let ops = self.own_ops(op);
        if exists|k: int| 0 <= k < ops.len() && self.behaves_otherwise(#[trigger] ops[k], expected) {
            Some("fp.round primitive semantics must match its contract"@)
        } else {
            None
        }
    }
}

/// Whether a use of a resource is one of those allowed: a change only where a
/// change is.
pub open spec fn admitted(
    effect: EffectView,
    allowed: Seq<(StateResource, ResourceAccess)>,
) -> bool {
    exists|i: int|
        0 <= i < allowed.len() && (#[trigger] allowed[i]).0 == effect.resource && (allowed[i].1
            == ResourceAccess::Change || effect.access == ResourceAccess::Read)
}

/// Whether an entry of a table is about one of `ops` and uses a resource as is
/// not allowed.
pub open spec fn oversteps(
    entry: OpEffectsView,
    ops: Seq<OpId>,
    allowed: Seq<(StateResource, ResourceAccess)>,
) -> bool {
    ops.contains(entry.op) && exists|i: int|
        0 <= i < entry.effects.len() && !admitted(#[trigger] entry.effects[i], allowed)
}

/// Why the reference uses a resource its contract does not allow.
pub open spec fn effects_failure(
    table: Seq<OpEffectsView>,
    ops: Seq<OpId>,
    allowed: Seq<(StateResource, ResourceAccess)>,
) -> Option<Seq<char>> {
    if exists|k: int| 0 <= k < table.len() && oversteps(#[trigger] table[k], ops, allowed) {
        Some("fp.round reference has a state effect absent from its contract"@)
    } else {
        None
    }
}

/// Whether a resource is among those expected, and changed.
pub open spec fn expects(
    expected: Seq<(StateResource, ResourceAccess)>,
    resource: StateResource,
    change: bool,
) -> bool {
    exists|i: int|
        0 <= i < expected.len() && (#[trigger] expected[i]).0 == resource && (change
            ==> expected[i].1 == ResourceAccess::Change)
}

/// Each of the first `n` of `later` with each of `earlier`.
pub open spec fn crossed(later: Seq<ValueId>, earlier: Seq<ValueId>, n: int) -> Seq<
    (ValueId, ValueId),
>
    decreases n,
{
    if n <= 0 {
        Seq::empty()
    } else {
        crossed(later, earlier, n - 1) + earlier.map_values(|e: ValueId| (later[n - 1], e))
    }
}

/// From each state the first `n` uses of a resource leave to those they observe.
pub open spec fn effect_edges(effects: Seq<EffectView>, resource: StateResource, n: int) -> Seq<
    (ValueId, ValueId),
>
    decreases n,
{
    if n <= 0 {
        Seq::empty()
    } else if effects[n - 1].resource == resource {
        effect_edges(effects, resource, n - 1) + crossed(
            effects[n - 1].produced,
            effects[n - 1].observed,
            effects[n - 1].produced.len() as int,
        )
    } else {
        effect_edges(effects, resource, n - 1)
    }
}

/// From each state a carried state becomes to those it comes from.
pub open spec fn chain_steps(chain: ChainView) -> Seq<(ValueId, ValueId)> {
    crossed(seq![chain.left], chain.exits, 1) + crossed(
        chain.ports,
        seq![chain.entered],
        chain.ports.len() as int,
    ) + (match chain.next {
        Some(next) => crossed(seq![next], chain.exits, 1),
        None => Seq::empty(),
    })
}

impl ContextView {
    /// From each state the first `n` carried states of a resource become to those
    /// they come from.
    pub open spec fn chain_edges(
        self,
        types: Seq<(TypeId, StateResource)>,
        chains: Seq<ChainView>,
        resource: StateResource,
        n: int,
    ) -> Seq<(ValueId, ValueId)>
        decreases n,
    {
        if n <= 0 {
            Seq::empty()
        } else if resource_of(types, self.type_of(chains[n - 1].left)) == Some(resource) {
            self.chain_edges(types, chains, resource, n - 1) + chain_steps(chains[n - 1])
        } else {
            self.chain_edges(types, chains, resource, n - 1)
        }
    }

    /// From each state to those before it, by the first `n` entries of a table
    /// that are about one of `ops`.
    pub open spec fn state_edges(
        self,
        types: Seq<(TypeId, StateResource)>,
        table: Seq<OpEffectsView>,
        ops: Seq<OpId>,
        resource: StateResource,
        n: int,
    ) -> Seq<(ValueId, ValueId)>
        decreases n,
    {
        if n <= 0 {
            Seq::empty()
        } else if ops.contains(table[n - 1].op) {
            self.state_edges(types, table, ops, resource, n - 1) + effect_edges(
                table[n - 1].effects,
                resource,
                table[n - 1].effects.len() as int,
            ) + self.chain_edges(
                types,
                table[n - 1].chains,
                resource,
                table[n - 1].chains.len() as int,
            )
        } else {
            self.state_edges(types, table, ops, resource, n - 1)
        }
    }
}

/// The states the first `n` uses that change a resource leave.
pub open spec fn changed_by(effects: Seq<EffectView>, resource: StateResource, n: int) -> Seq<ValueId>
    decreases n,
{
    if n <= 0 {
        Seq::empty()
    } else if effects[n - 1].resource == resource && effects[n - 1].access
        == ResourceAccess::Change {
        changed_by(effects, resource, n - 1) + effects[n - 1].produced
    } else {
        changed_by(effects, resource, n - 1)
    }
}

/// The states a change of a resource leaves, by the first `n` entries of a table
/// that are about one of `ops`.
pub open spec fn changed_states(
    table: Seq<OpEffectsView>,
    ops: Seq<OpId>,
    resource: StateResource,
    n: int,
) -> Seq<ValueId>
    decreases n,
{
    if n <= 0 {
        Seq::empty()
    } else if ops.contains(table[n - 1].op) {
        changed_states(table, ops, resource, n - 1) + changed_by(
            table[n - 1].effects,
            resource,
            table[n - 1].effects.len() as int,
        )
    } else {
        changed_states(table, ops, resource, n - 1)
    }
}

/// Whether `path` leads along `edges`.
pub open spec fn leads(edges: Seq<(ValueId, ValueId)>, path: Seq<ValueId>) -> bool {
    forall|i: int|
        0 <= i < path.len() - 1 ==> edges.contains((#[trigger] path[i], path[i + 1]))
}

/// Whether some of `states` cannot be reached along `edges` from any of `from`.
pub open spec fn leaves_behind(
    edges: Seq<(ValueId, ValueId)>,
    from: Seq<ValueId>,
    states: Seq<ValueId>,
) -> bool {
    exists|i: int| 0 <= i < states.len() && !reachable(edges, from, #[trigger] states[i])
}

/// Whether `v` can be reached along `edges` from one of `from`.
#[verifier::opaque]
pub open spec fn reachable(edges: Seq<(ValueId, ValueId)>, from: Seq<ValueId>, v: ValueId) -> bool {
    exists|path: Seq<ValueId>| #[trigger]
        leads(edges, path) && path.len() > 0 && from.contains(path[0]) && path.last() == v
}

proof fn start_is_reachable(edges: Seq<(ValueId, ValueId)>, from: Seq<ValueId>, v: ValueId)
    requires
        from.contains(v),
    ensures
        reachable(edges, from, v),
{
    reveal(reachable);
    assert(leads(edges, seq![v]));
    assert(seq![v].last() == v && seq![v][0] == v);
}

proof fn step_is_reachable(
    edges: Seq<(ValueId, ValueId)>,
    from: Seq<ValueId>,
    a: ValueId,
    b: ValueId,
)
    requires
        reachable(edges, from, a),
        edges.contains((a, b)),
    ensures
        reachable(edges, from, b),
{
    reveal(reachable);
    let path = choose|path: Seq<ValueId>| #[trigger]
        leads(edges, path) && path.len() > 0 && from.contains(path[0]) && path.last() == a;
    let longer = path.push(b);
    assert forall|i: int| 0 <= i < longer.len() - 1 implies edges.contains(
        (#[trigger] longer[i], longer[i + 1]),
    ) by {
        if i < path.len() - 1 {
            assert(longer[i] == path[i] && longer[i + 1] == path[i + 1]);
        } else {
            assert(longer[i] == a && longer[i + 1] == b);
        }
    }
    assert(leads(edges, longer));
    assert(longer[0] == path[0] && longer.last() == b);
}

proof fn closed_holds_path(
    edges: Seq<(ValueId, ValueId)>,
    closed: Seq<ValueId>,
    path: Seq<ValueId>,
    n: int,
)
    requires
        leads(edges, path),
        0 <= n < path.len(),
        closed.contains(path[0]),
        forall|a: ValueId, b: ValueId|
            #[trigger] edges.contains((a, b)) && closed.contains(a) ==> closed.contains(b),
    ensures
        closed.contains(path[n]),
    decreases n,
{
    if n > 0 {
        closed_holds_path(edges, closed, path, n - 1);
        assert(edges.contains((path[n - 1], path[n - 1 + 1])));
    }
}

proof fn closed_holds_all(
    all: Seq<(ValueId, ValueId)>,
    rest: Seq<(ValueId, ValueId)>,
    from: Seq<ValueId>,
    seen: Seq<ValueId>,
    v: ValueId,
)
    requires
        forall|x: ValueId| #[trigger] from.contains(x) ==> seen.contains(x),
        forall|e: (ValueId, ValueId)| #[trigger]
            all.contains(e) ==> rest.contains(e) || seen.contains(e.1),
        forall|k: int| 0 <= k < rest.len() ==> !seen.contains((#[trigger] rest[k]).0),
        reachable(all, from, v),
    ensures
        seen.contains(v),
{
    reveal(reachable);
    assert forall|a: ValueId, b: ValueId|
        #[trigger] all.contains((a, b)) && seen.contains(a) implies seen.contains(b) by {
        if rest.contains((a, b)) {
            let k = choose|k: int| 0 <= k < rest.len() && rest[k] == (a, b);
            assert(!seen.contains(rest[k].0));
        }
    }
    let path = choose|path: Seq<ValueId>| #[trigger]
        leads(all, path) && path.len() > 0 && from.contains(path[0]) && path.last() == v;
    closed_holds_path(all, seen, path, path.len() - 1);
}

proof fn edge_is_taken(
    all: Seq<(ValueId, ValueId)>,
    before: Seq<(ValueId, ValueId)>,
    known: Seq<ValueId>,
    i: int,
)
    requires
        0 <= i < before.len(),
        forall|e: (ValueId, ValueId)| #[trigger]
            all.contains(e) ==> before.contains(e) || known.contains(e.1),
        forall|e: (ValueId, ValueId)| #[trigger] before.contains(e) ==> all.contains(e),
    ensures
        all.contains(before[i]),
        forall|e: (ValueId, ValueId)| #[trigger]
            all.contains(e) ==> before.remove(i).contains(e) || known.push(before[i].1).contains(
                e.1,
            ),
        forall|e: (ValueId, ValueId)| #[trigger]
            before.remove(i).contains(e) ==> all.contains(e),
{
    let rest = before.remove(i);
    crate::seqs::push_contains(known, before[i].1);
    assert(before.contains(before[i]));
    assert forall|f: (ValueId, ValueId)| #[trigger] all.contains(f) implies rest.contains(f)
        || known.push(before[i].1).contains(f.1) by {
        if before.contains(f) {
            let k = choose|k: int| 0 <= k < before.len() && before[k] == f;
            if k < i {
                assert(rest[k] == f);
            } else if k > i {
                assert(rest[k - 1] == f);
            }
        } else {
            assert(known.contains(f.1));
        }
    }
    assert forall|f: (ValueId, ValueId)| #[trigger] rest.contains(f) implies all.contains(f) by {
        let k = choose|k: int| 0 <= k < rest.len() && rest[k] == f;
        if k < i {
            assert(before[k] == f);
        } else {
            assert(before[k + 1] == f);
        }
        assert(before.contains(f));
    }
}

/// Everything that can be reached along `edges` from one of `from`.
pub fn reach(edges: &Vec<(ValueId, ValueId)>, from: &Vec<ValueId>) -> (r: Vec<ValueId>)
    ensures
        forall|v: ValueId| #[trigger] r@.contains(v) <==> reachable(edges@, from@, v),
{
    let ghost all = edges@;
    let mut rest: Vec<(ValueId, ValueId)> = crate::ir::copy_list(edges);
    let mut seen = crate::ir::copy_list(from);
    proof {
        assert forall|v: ValueId| #[trigger] seen@.contains(v) implies reachable(
            all,
            from@,
            v,
        ) by {
            start_is_reachable(all, from@, v);
        }
    }
    let mut i: usize = 0;
    while i < rest.len()
        invariant
            forall|v: ValueId| #[trigger] seen@.contains(v) ==> reachable(all, from@, v),
            forall|v: ValueId| #[trigger] from@.contains(v) ==> seen@.contains(v),
            forall|e: (ValueId, ValueId)| #[trigger]
                all.contains(e) ==> rest@.contains(e) || seen@.contains(e.1),
            forall|e: (ValueId, ValueId)| #[trigger] rest@.contains(e) ==> all.contains(e),
            forall|k: int| 0 <= k < i ==> !seen@.contains((#[trigger] rest@[k]).0),
            i <= rest.len(),
            all == edges@,
        decreases rest.len(), rest.len() - i,
    {
        if holds_value(&seen, rest[i].0) {
            let ghost before = rest@;
            let ghost known = seen@;
            let e = rest.remove(i);
            proof {
                edge_is_taken(all, before, known, i as int);
                step_is_reachable(all, from@, e.0, e.1);
                crate::seqs::push_contains(known, e.1);
            }
            seen.push(e.1);
            i = 0;
        } else {
            i += 1;
        }
    }
    proof {
        assert forall|v: ValueId| reachable(all, from@, v) implies #[trigger] seen@.contains(
            v,
        ) by {
            closed_holds_all(all, rest@, from@, seen@, v);
        }
    }
    seen
}

impl ContextView {
    /// Why the states of a resource do not cross a rounded evaluation as its
    /// contract says.
    pub open spec fn resource_failure(
        self,
        op: OpId,
        types: Seq<(TypeId, StateResource)>,
        expected: Seq<(StateResource, ResourceAccess)>,
        table: Seq<OpEffectsView>,
        resource: StateResource,
    ) -> Option<Seq<char>> {
        let o = self.ir.op(op)->0;
        let count: nat = if expects(expected, resource, false) {
            1
        } else {
            0
        };
        let ops = self.own_ops(op);
        let edges = self.state_edges(types, table, ops, resource, table.len() as int);
        let changed = changed_states(table, ops, resource, table.len() as int);
        let yielded = self.states_for(types, self.region_results(self.reference(op)), resource);
        if self.states_for(types, o.operands, resource).len() != count || self.states_for(
            types,
            o.results,
            resource,
        ).len() != count {
            Some("fp.round state ports do not match its contract"@)
        } else if expects(expected, resource, true) && leaves_behind(edges, yielded, changed) {
            Some("fp.round reference must yield the final state of its body effects"@)
        } else {
            None
        }
    }

    /// Why a rounded evaluation is wrong under a contract that names `formats`
    /// and `arithmetic`, uses the resources `expected`, and whose operations do
    /// what `table` says.
    pub open spec fn round_failure(
        self,
        op: OpId,
        formats: Seq<TypeId>,
        arithmetic: Seq<(Seq<char>, Seq<char>)>,
        types: Seq<(TypeId, StateResource)>,
        expected: Seq<(StateResource, ResourceAccess)>,
        table: Seq<OpEffectsView>,
    ) -> Option<Seq<char>> {
        either(
            self.round_ports_failure(op),
            either(
                self.formats_failure(op, formats, types),
                either(
                    self.captures_failure(op),
                    either(
                        self.semantics_failure(op, arithmetic),
                        either(
                            effects_failure(table, self.reference_ops(op), expected),
                            either(
                                self.resource_failure(
                                    op,
                                    types,
                                    expected,
                                    table,
                                    StateResource::Memory,
                                ),
                                self.resource_failure(
                                    op,
                                    types,
                                    expected,
                                    table,
                                    StateResource::FpEnv,
                                ),
                            ),
                        ),
                    ),
                ),
            ),
        )
    }
}

/// The step of a walk that goes into rounded evaluations, or does not.
pub open spec fn steps(context: ContextView, inwards: bool) -> Kids {
    if inwards {
        context.kids()
    } else {
        context.round_kids()
    }
}

fn walk_from(context: &Context, ops: &Vec<OpId>, inwards: bool) -> (r: Vec<OpId>)
    requires
        context.inv(),
        context@.sound(),
        context@.all_live(ops@),
        all_trees(steps(context@, inwards), ops@),
    ensures
        r@ == walk_of(steps(context@, inwards), ops@),
        context@.all_live(r@),
{
    let ghost kids = steps(context@, inwards);
    let mut r: Vec<OpId> = Vec::new();
    let mut stack: Vec<OpId> = Vec::new();
    push_reversed(&mut stack, ops);
    proof {
        assert(stack@ =~= ops@.reverse());
        assert(stacked(stack@) =~= ops@);
        assert forall|i: int| 0 <= i < stack@.len() implies crate::tree::is_tree(
            kids,
            #[trigger] stack@[i],
        ) && context@.ir.op(stack@[i]) is Some by {
            assert(stack@[i] == ops@[ops@.len() - 1 - i]);
        }
        assert(r@ + walk_of(kids, stacked(stack@)) =~= walk_of(kids, ops@));
    }
    while stack.len() > 0
        invariant
            context.inv(),
            context@.sound(),
            kids == steps(context@, inwards),
            all_trees(kids, stack@),
            context@.all_live(stack@),
            context@.all_live(r@),
            r@ + walk_of(kids, stacked(stack@)) == walk_of(kids, ops@),
        decreases walk_of(kids, stacked(stack@)).len(),
    {
        let ghost before = stack@;
        let ghost seen = r@;
        let op = stack.pop().unwrap();
        assert(context@.ir.op(before[before.len() - 1]) is Some);
        assert(context@.op_sound(op));
        let stop = !inwards && context.get_op(op).is_name(context, "fp", "round");
        let more: Vec<OpId> = if stop {
            Vec::new()
        } else {
            context.children(op)
        };
        proof {
            children_are_live(context@, op);
            assert(more@ =~= kids(op));
            stack_step(kids, before, more@);
        }
        let ghost rest = stack@;
        push_reversed(&mut stack, &more);
        proof {
            assert forall|i: int| 0 <= i < stack@.len() implies context@.ir.op(
                #[trigger] stack@[i],
            ) is Some by {
                if i < rest.len() {
                    assert(stack@[i] == before[i]);
                } else {
                    assert(stack@[i] == more@[more@.len() - 1 - (i - rest.len())]);
                }
            }
        }
        r.push(op);
        assert(r@ + walk_of(kids, stacked(stack@)) =~= seen + (seq![op] + walk_of(
            kids,
            stacked(stack@),
        )));
    }
    assert(stacked(stack@) =~= Seq::<OpId>::empty());
    assert(r@ + walk_of(kids, stacked(stack@)) =~= r@);
    r
}

fn holds_op(list: &Vec<OpId>, op: OpId) -> (r: bool)
    ensures
        r == list@.contains(op),
{
    let mut i: usize = 0;
    while i < list.len()
        invariant
            i <= list.len(),
            forall|k: int| 0 <= k < i ==> list@[k] != op,
        decreases list.len() - i,
    {
        if list[i] == op {
            assert(list@[i as int] == op);
            return true;
        }
        i += 1;
    }
    false
}

fn states_for(
    context: &Context,
    types: &Vec<(TypeId, StateResource)>,
    values: &Vec<ValueId>,
    resource: StateResource,
) -> (r: Vec<ValueId>)
    requires
        context.inv(),
        context@.values_typed(values@),
    ensures
        r@ == context@.states_for(types@, values@, resource),
{
    let mut r: Vec<ValueId> = Vec::new();
    let mut i: usize = 0;
    assert(values@.take(0) =~= Seq::empty());
    while i < values.len()
        invariant
            context.inv(),
            context@.values_typed(values@),
            i <= values.len(),
            r@ == context@.states_for(types@, values@.take(i as int), resource),
        decreases values.len() - i,
    {
        proof {
            let more = values@.take(i + 1);
            assert(more.drop_last() =~= values@.take(i as int));
            assert(more.last() == values@[i as int]);
            assert(context@.ir.value(values@[i as int]) is Some);
        }
        let state = match resource_in(types, context.get_value(values[i]).ty) {
            Some(found) => found == resource,
            None => false,
        };
        if state {
            r.push(values[i]);
        }
        i += 1;
    }
    assert(values@.take(i as int) =~= values@);
    r
}

fn numeric_types(
    context: &Context,
    types: &Vec<(TypeId, StateResource)>,
    values: &Vec<ValueId>,
) -> (r: Vec<TypeId>)
    requires
        context.inv(),
        context@.values_typed(values@),
    ensures
        r@ == context@.numeric_types(types@, values@),
        context@.types_known(r@),
{
    let mut r: Vec<TypeId> = Vec::new();
    let mut i: usize = 0;
    assert(values@.take(0) =~= Seq::empty());
    while i < values.len()
        invariant
            context.inv(),
            context@.values_typed(values@),
            i <= values.len(),
            r@ == context@.numeric_types(types@, values@.take(i as int)),
            context@.types_known(r@),
        decreases values.len() - i,
    {
        proof {
            let more = values@.take(i + 1);
            assert(more.drop_last() =~= values@.take(i as int));
            assert(more.last() == values@[i as int]);
            assert(context@.ir.value(values@[i as int]) is Some);
        }
        let ty = context.get_value(values[i]).ty;
        if resource_in(types, ty).is_none() {
            r.push(ty);
        }
        i += 1;
    }
    assert(values@.take(i as int) =~= values@);
    r
}

fn push_crossed(
    edges: &mut Vec<(ValueId, ValueId)>,
    later: &Vec<ValueId>,
    earlier: &Vec<ValueId>,
)
    ensures
        final(edges)@ == old(edges)@ + crossed(later@, earlier@, later@.len() as int),
{
    let ghost start = edges@;
    let mut i: usize = 0;
    assert(edges@ =~= start + crossed(later@, earlier@, 0));
    while i < later.len()
        invariant
            i <= later.len(),
            edges@ == start + crossed(later@, earlier@, i as int),
        decreases later.len() - i,
    {
        let ghost before = edges@;
        let mut j: usize = 0;
        while j < earlier.len()
            invariant
                i < later.len(),
                j <= earlier.len(),
                edges@ =~= before + earlier@.take(j as int).map_values(
                    |e: ValueId| (later@[i as int], e),
                ),
            decreases earlier.len() - j,
        {
            edges.push((later[i], earlier[j]));
            j += 1;
        }
        assert(earlier@.take(j as int) =~= earlier@);
        assert(edges@ =~= start + crossed(later@, earlier@, i + 1));
        i += 1;
    }
}

fn push_effect_edges(
    edges: &mut Vec<(ValueId, ValueId)>,
    effects: &Vec<ResourceEffect>,
    resource: StateResource,
)
    ensures
        final(edges)@ == old(edges)@ + effect_edges(
            effects@.map_values(|e: ResourceEffect| e@),
            resource,
            effects@.len() as int,
        ),
{
    let ghost start = edges@;
    let ghost views = effects@.map_values(|e: ResourceEffect| e@);
    let mut i: usize = 0;
    assert(edges@ =~= start + effect_edges(views, resource, 0));
    while i < effects.len()
        invariant
            i <= effects.len(),
            views == effects@.map_values(|e: ResourceEffect| e@),
            edges@ == start + effect_edges(views, resource, i as int),
        decreases effects.len() - i,
    {
        let effect = &effects[i];
        assert(views[i as int] == effect@);
        if effect.resource == resource {
            push_crossed(edges, &effect.produced, &effect.observed);
        }
        assert(edges@ =~= start + effect_edges(views, resource, i + 1));
        i += 1;
    }
}

fn push_chain_steps(edges: &mut Vec<(ValueId, ValueId)>, chain: &StateChain)
    ensures
        final(edges)@ == old(edges)@ + chain_steps(chain@),
{
    let ghost start = edges@;
    let mut left: Vec<ValueId> = Vec::new();
    left.push(chain.left);
    let mut entered: Vec<ValueId> = Vec::new();
    entered.push(chain.entered);
    assert(left@ =~= seq![chain.left]);
    assert(entered@ =~= seq![chain.entered]);
    push_crossed(edges, &left, &chain.exits);
    push_crossed(edges, &chain.ports, &entered);
    if let Some(next) = chain.next {
        let mut later: Vec<ValueId> = Vec::new();
        later.push(next);
        assert(later@ =~= seq![next]);
        push_crossed(edges, &later, &chain.exits);
    }
    assert(edges@ =~= start + chain_steps(chain@));
}

fn push_chain_edges(
    context: &Context,
    edges: &mut Vec<(ValueId, ValueId)>,
    types: &Vec<(TypeId, StateResource)>,
    chains: &Vec<StateChain>,
    resource: StateResource,
)
    requires
        context.inv(),
        forall|i: int|
            0 <= i < chains@.len() ==> context@.ir.value((#[trigger] chains@[i]).left) is Some,
    ensures
        final(edges)@ == old(edges)@ + context@.chain_edges(
            types@,
            chains@.map_values(|c: StateChain| c@),
            resource,
            chains@.len() as int,
        ),
{
    let ghost start = edges@;
    let ghost views = chains@.map_values(|c: StateChain| c@);
    let mut i: usize = 0;
    assert(edges@ =~= start + context@.chain_edges(types@, views, resource, 0));
    while i < chains.len()
        invariant
            context.inv(),
            forall|i: int|
                0 <= i < chains@.len() ==> context@.ir.value((#[trigger] chains@[i]).left) is Some,
            i <= chains.len(),
            views == chains@.map_values(|c: StateChain| c@),
            edges@ == start + context@.chain_edges(types@, views, resource, i as int),
        decreases chains.len() - i,
    {
        let chain = &chains[i];
        assert(views[i as int] == chain@);
        let carried = match resource_in(types, context.get_value(chain.left).ty) {
            Some(found) => found == resource,
            None => false,
        };
        if carried {
            push_chain_steps(edges, chain);
        }
        assert(edges@ =~= start + context@.chain_edges(types@, views, resource, i + 1));
        i += 1;
    }
}

/// Whether every state the chains of a table leave is live.
pub open spec fn chains_live(context: ContextView, table: Seq<OpEffects>) -> bool {
    forall|k: int, i: int|
        0 <= k < table.len() && 0 <= i < table[k].chains@.len() ==> context.ir.value(
            (#[trigger] table[k].chains@[i]).left,
        ) is Some
}

fn state_edges(
    context: &Context,
    types: &Vec<(TypeId, StateResource)>,
    table: &Vec<OpEffects>,
    ops: &Vec<OpId>,
    resource: StateResource,
) -> (r: Vec<(ValueId, ValueId)>)
    requires
        context.inv(),
        chains_live(context@, table@),
    ensures
        r@ == context@.state_edges(
            types@,
            table_view(table@),
            ops@,
            resource,
            table@.len() as int,
        ),
{
    let mut r: Vec<(ValueId, ValueId)> = Vec::new();
    let ghost views = table_view(table@);
    let mut i: usize = 0;
    while i < table.len()
        invariant
            context.inv(),
            chains_live(context@, table@),
            i <= table.len(),
            views == table_view(table@),
            r@ == context@.state_edges(types@, views, ops@, resource, i as int),
        decreases table.len() - i,
    {
        let entry = &table[i];
        assert(views[i as int] == entry@);
        if holds_op(ops, entry.op) {
            push_effect_edges(&mut r, &entry.effects, resource);
            assert forall|k: int| 0 <= k < entry.chains@.len() implies context@.ir.value(
                (#[trigger] entry.chains@[k]).left,
            ) is Some by {
                assert(context@.ir.value(table@[i as int].chains@[k].left) is Some);
            }
            push_chain_edges(context, &mut r, types, &entry.chains, resource);
        }
        i += 1;
    }
    r
}

fn changed_states_in(table: &Vec<OpEffects>, ops: &Vec<OpId>, resource: StateResource) -> (r: Vec<
    ValueId,
>)
    ensures
        r@ == changed_states(table_view(table@), ops@, resource, table@.len() as int),
{
    let mut r: Vec<ValueId> = Vec::new();
    let ghost views = table_view(table@);
    let mut i: usize = 0;
    while i < table.len()
        invariant
            i <= table.len(),
            views == table_view(table@),
            r@ == changed_states(views, ops@, resource, i as int),
        decreases table.len() - i,
    {
        let entry = &table[i];
        assert(views[i as int] == entry@);
        if holds_op(ops, entry.op) {
            let ghost before = r@;
            let ghost effects = entry.effects@.map_values(|e: ResourceEffect| e@);
            let mut k: usize = 0;
            assert(r@ =~= before + changed_by(effects, resource, 0));
            while k < entry.effects.len()
                invariant
                    k <= entry.effects.len(),
                    effects == entry.effects@.map_values(|e: ResourceEffect| e@),
                    r@ == before + changed_by(effects, resource, k as int),
                decreases entry.effects.len() - k,
            {
                let effect = &entry.effects[k];
                assert(effects[k as int] == effect@);
                if effect.resource == resource && effect.access == ResourceAccess::Change {
                    let ghost so_far = r@;
                    let mut produced = crate::ir::copy_list(&effect.produced);
                    r.append(&mut produced);
                    assert(r@ =~= so_far + effect@.produced);
                }
                assert(r@ =~= before + changed_by(effects, resource, k + 1));
                k += 1;
            }
        }
        i += 1;
    }
    r
}

fn expects_in(
    expected: &Vec<(StateResource, ResourceAccess)>,
    resource: StateResource,
    change: bool,
) -> (r: bool)
    ensures
        r == expects(expected@, resource, change),
{
    let mut i: usize = 0;
    while i < expected.len()
        invariant
            i <= expected.len(),
            forall|k: int|
                0 <= k < i ==> !((#[trigger] expected@[k]).0 == resource && (change
                    ==> expected@[k].1 == ResourceAccess::Change)),
        decreases expected.len() - i,
    {
        if expected[i].0 == resource && (!change || expected[i].1 == ResourceAccess::Change) {
            assert(expected@[i as int].0 == resource);
            return true;
        }
        i += 1;
    }
    false
}

impl RoundOp {
    /// The region that says what the result is to be.
    pub fn reference_region(&self, context: &Context) -> (r: RegionId)
        requires
            context.inv(),
            context@.ir.op(self.0.id) is Some,
            context@.ir.op(self.0.id)->0.regions.len() > 0,
        ensures
            r == context@.reference(self.0.id),
    {
        context.regions_of(self.0.id)[0]
    }

    /// How the captures enter the reference and its yields leave it.
    pub fn binding(&self, context: &Context) -> (b: Binding)
        requires
            context.inv(),
            context@.ir.op(self.0.id) is Some,
        ensures
            ({
                let captures = context@.ir.op(self.0.id)->0.operands.len() as usize;
                let results = context@.ir.op(self.0.id)->0.results.len() as usize;
                b == (Binding {
                    operands: IndexRange { start: 0, end: captures },
                    ports: IndexRange { start: 0, end: captures },
                    continue_: IndexRange { start: 0, end: 0 },
                    exit: IndexRange { start: 0, end: results },
                    results: IndexRange { start: 0, end: results },
                })
            }),
    {
        let captures: usize = context.operands_of(self.0.id).len();
        let results: usize = context.results_of(self.0.id).len();
        Binding {
            operands: IndexRange::new(0, captures),
            ports: IndexRange::new(0, captures),
            continue_: IndexRange::new(0, 0),
            exit: IndexRange::new(0, results),
            results: IndexRange::new(0, results),
        }
    }

    fn verify_ports(&self, context: &Context) -> (r: Result<(), Error>)
        requires
            context.inv(),
            context@.round_wf(self.0.id),
        ensures
            verdict(r, context@.round_ports_failure(self.0.id)),
    {
        let reference = self.reference_region(context);
        let ports = context.region_ports(reference);
        let yielded = context.region_results(reference);
        let captures = context.operands_of(self.0.id);
        let results = context.results_of(self.0.id);
        if ports.len() != captures.len() {
            return Err(invalid("fp.round must bind every capture to one reference port"));
        }
        if yielded.len() != results.len() {
            return Err(invalid("fp.round reference yield count must match its result count"));
        }
        let ghost view = context@;
        let ghost o = view.ir.op(self.0.id)->0;
        let ghost at = |i: int|
            if ports@[i].ty == view.type_of(o.operands[i]) {
                None
            } else {
                Some("fp.round port "@ + decimal(i as nat) + " must have its capture's type"@)
            };
        let ghost then_at = |i: int|
            if view.type_of(yielded@[i]) == view.type_of(o.results[i]) {
                None
            } else {
                Some("fp.round yield "@ + decimal(i as nat) + " must have its result's type"@)
            };
        let mut i: usize = 0;
        while i < ports.len()
            invariant
                context.inv(),
                view == context@,
                o == view.ir.op(self.0.id)->0,
                view.values_typed(o.operands),
                captures@ == o.operands,
                results@ == o.results,
                ports@ == view.region_ports(view.reference(self.0.id)),
                yielded@ == view.region_results(view.reference(self.0.id)),
                ports.len() == captures.len(),
                yielded.len() == results.len(),
                i <= ports.len(),
                at == (|i: int|
                    if ports@[i].ty == view.type_of(o.operands[i]) {
                        None
                    } else {
                        Some(
                            "fp.round port "@ + decimal(i as nat)
                                + " must have its capture's type"@,
                        )
                    }),
                first_failure(at, i as int) is None,
            decreases ports.len() - i,
        {
            assert(view.ir.value(o.operands[i as int]) is Some);
            if ports[i].ty != context.get_value(captures[i]).ty {
                proof {
                    assert(at(i as int) is Some);
                    first_failure_stays(at, i + 1, ports@.len() as int);
                }
                let message = cat3(
                    "fp.round port ",
                    decimal_string(i as u64).as_str(),
                    " must have its capture's type",
                );
                return Err(invalid(message.as_str()));
            }
            assert(at(i as int) is None);
            i += 1;
        }
        let mut i: usize = 0;
        while i < yielded.len()
            invariant
                context.inv(),
                view == context@,
                o == view.ir.op(self.0.id)->0,
                view.values_typed(o.results),
                view.values_typed(yielded@),
                captures@ == o.operands,
                results@ == o.results,
                ports@ == view.region_ports(view.reference(self.0.id)),
                yielded@ == view.region_results(view.reference(self.0.id)),
                ports.len() == captures.len(),
                yielded.len() == results.len(),
                i <= yielded.len(),
                at == (|i: int|
                    if ports@[i].ty == view.type_of(o.operands[i]) {
                        None
                    } else {
                        Some(
                            "fp.round port "@ + decimal(i as nat)
                                + " must have its capture's type"@,
                        )
                    }),
                first_failure(at, ports@.len() as int) is None,
                then_at == (|i: int|
                    if view.type_of(yielded@[i]) == view.type_of(o.results[i]) {
                        None
                    } else {
                        Some(
                            "fp.round yield "@ + decimal(i as nat)
                                + " must have its result's type"@,
                        )
                    }),
                first_failure(then_at, i as int) is None,
            decreases yielded.len() - i,
        {
            assert(view.ir.value(o.results[i as int]) is Some);
            assert(view.ir.value(yielded@[i as int]) is Some);
            if context.get_value(yielded[i]).ty != context.get_value(results[i]).ty {
                proof {
                    assert(then_at(i as int) is Some);
                    first_failure_stays(then_at, i + 1, yielded@.len() as int);
                }
                let message = cat3(
                    "fp.round yield ",
                    decimal_string(i as u64).as_str(),
                    " must have its result's type",
                );
                return Err(invalid(message.as_str()));
            }
            assert(then_at(i as int) is None);
            i += 1;
        }
        Ok(())
    }

    fn verify_formats(
        &self,
        context: &Context,
        formats: &Vec<TypeId>,
        types: &Vec<(TypeId, StateResource)>,
    ) -> (r: Result<(), Error>)
        requires
            context.inv(),
            context@.round_wf(self.0.id),
        ensures
            verdict(r, context@.formats_failure(self.0.id, formats@, types@)),
    {
        let numeric = numeric_types(context, types, context.results_of(self.0.id));
        if !same_types(formats, &numeric) {
            return Err(invalid("fp.round result formats must match its numeric results"));
        }
        let ghost view = context@;
        let mut i: usize = 0;
        while i < numeric.len()
            invariant
                context.inv(),
                view == context@,
                view.types_known(numeric@),
                numeric@ == view.numeric_types(types@, view.ir.op(self.0.id)->0.results),
                formats@ == numeric@,
                i <= numeric.len(),
                forall|k: int|
                    0 <= k < i ==> view.types[(#[trigger] numeric@[k]).0 as int] is Float,
            decreases numeric.len() - i,
        {
            let float = match context.get_type_data(numeric[i]) {
                Type::Float(_) => true,
                _ => false,
            };
            if !float {
                assert(!(view.types[numeric@[i as int].0 as int] is Float));
                return Err(invalid("fp.round numeric results must have floating types"));
            }
            i += 1;
        }
        Ok(())
    }

    fn local_values(&self, context: &Context, ops: &Vec<OpId>) -> (r: Vec<ValueId>)
        requires
            context.inv(),
            context@.round_wf(self.0.id),
            ops@ == context@.reference_ops(self.0.id),
            context@.all_live(ops@),
        ensures
            r@ == context@.local_values(self.0.id),
    {
        let reference = self.reference_region(context);
        let mut r = crate::binding::port_ids(context, reference);
        let ghost start = r@;
        let mut i: usize = 0;
        assert(r@ =~= start + context@.defined_by(ops@, 0));
        while i < ops.len()
            invariant
                context.inv(),
                context@.sound(),
                context@.all_live(ops@),
                i <= ops.len(),
                r@ == start + context@.defined_by(ops@, i as int),
            decreases ops.len() - i,
        {
            let op = ops[i];
            assert(context@.ir.op(ops@[i as int]) is Some);
            assert(context@.op_sound(op));
            let ghost before = r@;
            let mut results = crate::ir::copy_list(context.results_of(op));
            r.append(&mut results);
            let regions = context.regions_of(op);
            let ghost with_results = r@;
            assert(with_results =~= before + context@.ir.op(op)->0.results);
            let mut k: usize = 0;
            assert(r@ =~= with_results + context@.ports_in(regions@, 0));
            while k < regions.len()
                invariant
                    context.inv(),
                    context@.op_sound(op),
                    context@.ir.op(op) is Some,
                    regions@ == context@.ir.op(op)->0.regions,
                    k <= regions.len(),
                    r@ == with_results + context@.ports_in(regions@, k as int),
                decreases regions.len() - k,
            {
                let ghost so_far = r@;
                let mut ports = crate::binding::port_ids(context, regions[k]);
                let ghost added = ports@;
                r.append(&mut ports);
                assert(r@ =~= so_far + added);
                assert(r@ =~= with_results + context@.ports_in(regions@, k + 1));
                k += 1;
            }
            assert(r@ =~= start + context@.defined_by(ops@, i + 1));
            i += 1;
        }
        r
    }

    fn verify_captures(&self, context: &Context, ops: &Vec<OpId>) -> (r: Result<(), Error>)
        requires
            context.inv(),
            context@.round_wf(self.0.id),
            ops@ == context@.reference_ops(self.0.id),
            context@.all_live(ops@),
        ensures
            verdict(r, context@.captures_failure(self.0.id)),
    {
        let local = self.local_values(context, ops);
        let ghost view = context@;
        let mut i: usize = 0;
        while i < ops.len()
            invariant
                context.inv(),
                view == context@,
                view.all_live(ops@),
                ops@ == view.reference_ops(self.0.id),
                local@ == view.local_values(self.0.id),
                i <= ops.len(),
                forall|k: int| 0 <= k < i ==> view.reads_only(#[trigger] ops@[k], local@),
            decreases ops.len() - i,
        {
            assert(view.ir.op(ops@[i as int]) is Some);
            let operands = context.operands_of(ops[i]);
            let mut k: usize = 0;
            while k < operands.len()
                invariant
                    i < ops.len(),
                    view == context@,
                    operands@ == view.ir.op(ops@[i as int])->0.operands,
                    ops@ == view.reference_ops(self.0.id),
                    local@ == view.local_values(self.0.id),
                    k <= operands.len(),
                    forall|j: int| 0 <= j < k ==> local@.contains(#[trigger] operands@[j]),
                decreases operands.len() - k,
            {
                if !holds_value(&local, operands[k]) {
                    assert(!local@.contains(operands@[k as int]));
                    assert(!view.reads_only(ops@[i as int], local@));
                    return Err(
                        invalid(
                            "fp.round reference may read outer values only through explicit capture ports",
                        ),
                    );
                }
                k += 1;
            }
            i += 1;
        }
        let reference = self.reference_region(context);
        let yielded = context.region_results(reference);
        let mut i: usize = 0;
        while i < yielded.len()
            invariant
                view == context@,
                ops@ == view.reference_ops(self.0.id),
                local@ == view.local_values(self.0.id),
                yielded@ == view.region_results(view.reference(self.0.id)),
                forall|k: int|
                    0 <= k < ops@.len() ==> view.reads_only(#[trigger] ops@[k], local@),
                i <= yielded.len(),
                forall|k: int| 0 <= k < i ==> local@.contains(#[trigger] yielded@[k]),
            decreases yielded.len() - i,
        {
            if !holds_value(&local, yielded[i]) {
                assert(!local@.contains(yielded@[i as int]));
                return Err(
                    invalid(
                        "fp.round reference may yield outer values only through explicit capture ports",
                    ),
                );
            }
            i += 1;
        }
        Ok(())
    }
}

/// Whether an attribute says arithmetic behaves otherwise than `expected`.
fn says_otherwise(value: &AttributeValue, expected: &ArithmeticSemantics) -> (r: bool)
    ensures
        r == match arithmetic_of(value@) {
            Ok(actual) => actual != pairs_of(expected.fields@),
            Err(_) => false,
        },
{
    let actual = match crate::dialects::fp::contract::arithmetic_in(value) {
        Ok(actual) => actual,
        Err(_) => {
            return false;
        },
    };
    let ghost a = pairs_of(actual.fields@);
    let ghost b = pairs_of(expected.fields@);
    if actual.fields.len() != expected.fields.len() {
        assert(a.len() != b.len());
        return true;
    }
    let mut i: usize = 0;
    while i < actual.fields.len()
        invariant
            i <= actual.fields.len(),
            actual.fields.len() == expected.fields.len(),
            a == pairs_of(actual.fields@),
            b == pairs_of(expected.fields@),
            arithmetic_of(value@) == Ok::<Seq<(Seq<char>, Seq<char>)>, Seq<char>>(a),
            forall|k: int| 0 <= k < i ==> a[k] == b[k],
        decreases actual.fields.len() - i,
    {
        assert(a[i as int] == (actual.fields@[i as int].0@, actual.fields@[i as int].1@));
        assert(b[i as int] == (expected.fields@[i as int].0@, expected.fields@[i as int].1@));
        if !same(actual.fields[i].0.as_str(), expected.fields[i].0.as_str()) || !same(
            actual.fields[i].1.as_str(),
            expected.fields[i].1.as_str(),
        ) {
            assert(a[i as int] != b[i as int]);
            return true;
        }
        i += 1;
    }
    assert(a =~= b);
    false
}

impl RoundOp {
    fn verify_semantics(
        &self,
        context: &Context,
        ops: &Vec<OpId>,
        expected: &ArithmeticSemantics,
    ) -> (r: Result<(), Error>)
        requires
            context.inv(),
            context@.round_wf(self.0.id),
            ops@ == context@.own_ops(self.0.id),
            context@.all_live(ops@),
        ensures
            verdict(r, context@.semantics_failure(self.0.id, pairs_of(expected.fields@))),
    {
        let ghost view = context@;
        let ghost want = pairs_of(expected.fields@);
        let mut i: usize = 0;
        while i < ops.len()
            invariant
                context.inv(),
                view == context@,
                view.sound(),
                view.all_live(ops@),
                ops@ == view.own_ops(self.0.id),
                want == pairs_of(expected.fields@),
                i <= ops.len(),
                forall|k: int| 0 <= k < i ==> !view.behaves_otherwise(#[trigger] ops@[k], want),
            decreases ops.len() - i,
        {
            assert(view.ir.op(ops@[i as int]) is Some);
            assert(view.op_sound(ops@[i as int]));
            if !context.get_op(ops[i]).is_name(context, "fp", "round") {
                let otherwise = match context.with_attr(ops[i], "semantics") {
                    Some(value) => says_otherwise(value, expected),
                    None => false,
                };
                if otherwise {
                    assert(view.behaves_otherwise(ops@[i as int], want));
                    return Err(invalid("fp.round primitive semantics must match its contract"));
                }
            }
            i += 1;
        }
        Ok(())
    }

    fn verify_resource(
        &self,
        context: &Context,
        ops: &Vec<OpId>,
        types: &Vec<(TypeId, StateResource)>,
        expected: &Vec<(StateResource, ResourceAccess)>,
        table: &Vec<OpEffects>,
        resource: StateResource,
    ) -> (r: Result<(), Error>)
        requires
            context.inv(),
            context@.round_wf(self.0.id),
            ops@ == context@.own_ops(self.0.id),
            chains_live(context@, table@),
        ensures
            verdict(
                r,
                context@.resource_failure(
                    self.0.id,
                    types@,
                    expected@,
                    table_view(table@),
                    resource,
                ),
            ),
    {
        let count: usize = if expects_in(expected, resource, false) {
            1
        } else {
            0
        };
        let taken = states_for(context, types, context.operands_of(self.0.id), resource);
        let left = states_for(context, types, context.results_of(self.0.id), resource);
        if taken.len() != count || left.len() != count {
            return Err(invalid("fp.round state ports do not match its contract"));
        }
        if !expects_in(expected, resource, true) {
            return Ok(());
        }
        let edges = state_edges(context, types, table, ops, resource);
        let changed = changed_states_in(table, ops, resource);
        let reference = self.reference_region(context);
        let yielded = states_for(
            context,
            types,
            &context.region_results(reference),
            resource,
        );
        let seen = reach(&edges, &yielded);
        let mut i: usize = 0;
        while i < changed.len()
            invariant
                context@.round_wf(self.0.id),
                ops@ == context@.own_ops(self.0.id),
                expects(expected@, resource, true),
                count == if expects(expected@, resource, false) {
                    1usize
                } else {
                    0usize
                },
                context@.states_for(types@, context@.ir.op(self.0.id)->0.operands, resource).len()
                    == count,
                context@.states_for(types@, context@.ir.op(self.0.id)->0.results, resource).len()
                    == count,
                edges@ == context@.state_edges(
                    types@,
                    table_view(table@),
                    ops@,
                    resource,
                    table@.len() as int,
                ),
                changed@ == changed_states(
                    table_view(table@),
                    ops@,
                    resource,
                    table@.len() as int,
                ),
                yielded@ == context@.states_for(
                    types@,
                    context@.region_results(context@.reference(self.0.id)),
                    resource,
                ),
                forall|v: ValueId| #[trigger]
                    seen@.contains(v) <==> reachable(edges@, yielded@, v),
                i <= changed.len(),
                forall|k: int|
                    0 <= k < i ==> reachable(edges@, yielded@, #[trigger] changed@[k]),
            decreases changed.len() - i,
        {
            if !holds_value(&seen, changed[i]) {
                assert(!reachable(edges@, yielded@, changed@[i as int]));
                assert(leaves_behind(edges@, yielded@, changed@));
                assert(table_view(table@).len() == table@.len());
                return Err(
                    invalid("fp.round reference must yield the final state of its body effects"),
                );
            }
            assert(seen@.contains(changed@[i as int]));
            i += 1;
        }
        assert(table_view(table@).len() == table@.len());
        Ok(())
    }

    /// Checks a rounded evaluation against the contract it carries. One whose contract
    /// makes no sense is reported for that.
    pub fn verify_carried(
        &self,
        context: &Context,
        types: &Vec<(TypeId, StateResource)>,
        expected: &Vec<(StateResource, ResourceAccess)>,
        table: &Vec<OpEffects>,
    ) -> (r: Result<(), Error>)
        requires
            context.inv(),
            context@.round_wf(self.0.id),
            context@.attr(self.0.id, "contract"@) is Some,
            chains_live(context@, table@),
        ensures
            verdict(
                r,
                match contract_of(context@.attr(self.0.id, "contract"@)->0) {
                    Err(message) => Some(message),
                    Ok(contract) => context@.round_failure(
                        self.0.id,
                        contract.result_formats,
                        contract.arithmetic,
                        types@,
                        expected@,
                        table_view(table@),
                    ),
                },
            ),
    {
        let attribute = self.0.attr(context, "contract").unwrap();
        match EvaluationContract::parse_attribute(&attribute) {
            Ok(contract) => self.verify_impl(context, &contract, types, expected, table),
            Err(e) => Err(e),
        }
    }

    /// Checks a rounded evaluation against its contract: what it captures and
    /// produces goes through ports of the same types, its results are of the
    /// formats named, its reference reaches nothing outside but through its
    /// ports, behaves as the contract says, uses no resource it does not, and
    /// yields the state its last change of a resource leaves. `types` names the
    /// types that are states, `expected` what the contract's arithmetic uses, and
    /// `table` what the operations of the reference do.
    pub fn verify_impl(
        &self,
        context: &Context,
        contract: &EvaluationContract,
        types: &Vec<(TypeId, StateResource)>,
        expected: &Vec<(StateResource, ResourceAccess)>,
        table: &Vec<OpEffects>,
    ) -> (r: Result<(), Error>)
        requires
            context.inv(),
            context@.round_wf(self.0.id),
            chains_live(context@, table@),
        ensures
            verdict(
                r,
                context@.round_failure(
                    self.0.id,
                    contract@.result_formats,
                    contract@.arithmetic,
                    types@,
                    expected@,
                    table_view(table@),
                ),
            ),
    {
        if let Err(e) = self.verify_ports(context) {
            return Err(e);
        }
        if let Err(e) = self.verify_formats(context, &contract.result_formats, types) {
            return Err(e);
        }
        let reference = self.reference_region(context);
        let held = context.region_op_ids(reference);
        proof {
            crate::context::sound::region_ops_are_live(context@, reference);
        }
        let ops = walk_from(context, &held, true);
        if let Err(e) = self.verify_captures(context, &ops) {
            return Err(e);
        }
        let own = walk_from(context, &held, false);
        if let Err(e) = self.verify_semantics(context, &own, &contract.arithmetic) {
            return Err(e);
        }
        if let Err(e) = verify_body_effects(table, &ops, expected) {
            return Err(e);
        }
        if let Err(e) = self.verify_resource(
            context,
            &own,
            types,
            expected,
            table,
            StateResource::Memory,
        ) {
            return Err(e);
        }
        self.verify_resource(context, &own, types, expected, table, StateResource::FpEnv)
    }
}

fn is_admitted(effect: &ResourceEffect, allowed: &Vec<(StateResource, ResourceAccess)>) -> (r: bool)
    ensures
        r == admitted(effect@, allowed@),
{
    let mut i: usize = 0;
    while i < allowed.len()
        invariant
            i <= allowed.len(),
            forall|k: int|
                0 <= k < i ==> !((#[trigger] allowed@[k]).0 == effect.resource && (allowed@[k].1
                    == ResourceAccess::Change || effect.access == ResourceAccess::Read)),
        decreases allowed.len() - i,
    {
        if allowed[i].0 == effect.resource && (allowed[i].1 == ResourceAccess::Change
            || effect.access == ResourceAccess::Read) {
            assert(allowed@[i as int].0 == effect@.resource);
            return true;
        }
        i += 1;
    }
    false
}

fn verify_body_effects(
    table: &Vec<OpEffects>,
    ops: &Vec<OpId>,
    allowed: &Vec<(StateResource, ResourceAccess)>,
) -> (r: Result<(), Error>)
    ensures
        verdict(r, effects_failure(table_view(table@), ops@, allowed@)),
{
    let ghost views = table_view(table@);
    let mut i: usize = 0;
    while i < table.len()
        invariant
            i <= table.len(),
            views == table_view(table@),
            forall|k: int| 0 <= k < i ==> !oversteps(#[trigger] views[k], ops@, allowed@),
        decreases table.len() - i,
    {
        let entry = &table[i];
        assert(views[i as int] == entry@);
        if holds_op(ops, entry.op) {
            let ghost effects = entry@.effects;
            let mut k: usize = 0;
            while k < entry.effects.len()
                invariant
                    i < table.len(),
                    views == table_view(table@),
                    views[i as int] == entry@,
                    effects == entry@.effects,
                    ops@.contains(entry.op),
                    k <= entry.effects.len(),
                    forall|j: int| 0 <= j < k ==> admitted(#[trigger] effects[j], allowed@),
                decreases entry.effects.len() - k,
            {
                assert(effects[k as int] == entry.effects@[k as int]@);
                if !is_admitted(&entry.effects[k], allowed) {
                    assert(!admitted(effects[k as int], allowed@));
                    assert(oversteps(views[i as int], ops@, allowed@));
                    return Err(
                        invalid(
                            "fp.round reference has a state effect absent from its contract",
                        ),
                    );
                }
                k += 1;
            }
        }
        i += 1;
    }
    Ok(())
}

/// Types as a rounded evaluation writes them: in brackets where there are
/// several.
pub open spec fn types_text(context: ContextView, types: Seq<TypeId>) -> Seq<char> {
    if types.len() > 1 {
        "("@ + context.type_names(types, types.len() as int) + ")"@
    } else {
        context.type_names(types, types.len() as int)
    }
}

/// Prints the types of what a rounded evaluation produces.
pub fn print_types(fmt: &mut IRFormatter, context: &Context, types: &Vec<TypeId>)
    requires
        context.inv(),
        context@.types_known(types@),
        types@.len() > 0,
    ensures
        final(fmt)@ == old(fmt)@.written(types_text(context@, types@)),
{
    let listed = crate::dialects::print::type_names_text(context, types);
    if types.len() > 1 {
        fmt.write(cat3("(", listed.as_str(), ")").as_str());
    } else {
        fmt.write(listed.as_str());
    }
}

/// The types that have to come next: one, or several in brackets.
pub open spec fn types_written(text: Seq<char>, pos: int) -> Parsed<Seq<TypeTree>> {
    match token_at(text, pos, "("@) {
        Some(p) => types_at(text, p, ")"@),
        None => match type_at(text, pos) {
            Err(e) => Err(e),
            Ok((t, p)) => Ok((seq![t], p)),
        },
    }
}

/// Reads the types of what a rounded evaluation produces.
pub fn parse_types(parser: &mut Parser) -> (r: ParseResult<Vec<TypeSyntax>>)
    requires
        old(parser)@.wf(),
    ensures
        reads(
            r,
            old(parser)@,
            final(parser)@,
            types_written(old(parser)@.text, old(parser)@.pos),
            |list: Vec<TypeSyntax>| trees_of(list@),
        ),
        final(parser)@.wf(),
{
    if parser.parse_token("(") {
        return parser.parse_types(")");
    }
    match parser.parse_type() {
        Ok(t) => {
            let ghost tree = t@;
            let mut list: Vec<TypeSyntax> = Vec::new();
            list.push(t);
            assert(trees_of(list@) =~= seq![tree]);
            Ok(list)
        },
        Err(e) => Err(e),
    }
}

} // verus!

//! What a structured op's declaration means at run time: the ranges its
//! [`Binding`] names, the checks that hold them aligned, and the syntax every
//! declared theta and gamma shares.
//!
//! A theta prints as `%r = dialect.op (%port = %init, ..) { .. }` and a
//! gamma as `%r = dialect.op %pred args(%in, ..) (%port, ..) { .. } (..) { .. }`.
//! Types are not spelled: a port has its init's type, a theta result its
//! init's, and a gamma result the type of the first arm's result. A memory
//! state is carried like any other value.
pub mod syntax;

use vstd::prelude::*;
use vstd::string::*;
use crate::attributes::attr_views;
use crate::attributes::AttrView;
use crate::attributes::AttributeValue;
use crate::attributes::Predicate;
use crate::context::regions::recorded_sizes;
use crate::context::regions::segment_end;
use crate::context::regions::size_of_item;
use crate::context::regions::sizes_of;
use crate::context::Context;
use crate::context::ContextView;
use crate::dependency::value_name;
use crate::dependency::value_text;
use crate::error::either;
use crate::error::invalid;
use crate::error::verdict;
use crate::error::Error;
use crate::ids::state_type;
use crate::ids::OpId;
use crate::ids::RegionId;
use crate::ids::TypeId;
use crate::ids::ValueId;
use crate::interfaces::Binding;
use crate::interfaces::IndexRange;
use crate::ir::copy_list;
use crate::ir::Value;
use crate::ir_formatter::IRFormatter;
use crate::lists::MAX_IDS;
use crate::text::cat2;
use crate::text::cat3;
use crate::text::cat4;
use crate::text::cat5;
use crate::text::cat6;
use crate::text::cat7;
use crate::text::decimal;
use crate::text::decimal_string;
use crate::ty::Type;
use crate::ty::TypeView;

verus! {

/// The operand range of each declared group: the recorded segment sizes one
/// after another, or one operand per group where none are recorded.
pub open spec fn segments(attributes: Seq<(Seq<char>, AttrView)>, groups: nat) -> Seq<(nat, nat)> {
    match recorded_sizes(attributes) {
        Some(items) => Seq::new(
            items.len(),
            |i: int| (segment_end(items, i - 1), segment_end(items, i)),
        ),
        None => Seq::new(groups, |i: int| (i as nat, (i + 1) as nat)),
    }
}

/// Whether the recorded segment sizes add up to a position.
pub open spec fn segments_fit(attributes: Seq<(Seq<char>, AttrView)>) -> bool {
    match recorded_sizes(attributes) {
        Some(items) => segment_end(items, items.len() - 1) <= usize::MAX,
        None => true,
    }
}

/// The range as a pair of positions.
pub open spec fn as_pair(r: IndexRange) -> (nat, nat) {
    (r.start as nat, r.end as nat)
}

proof fn ends_rise(items: Seq<AttrView>, k: int, l: int)
    requires
        -1 <= k <= l < items.len(),
    ensures
        segment_end(items, k) <= segment_end(items, l),
    decreases l - k,
{
    if k < l {
        ends_rise(items, k, l - 1);
    }
}

/// Whether the recorded segment sizes add up to a position.
pub fn sizes_fit(context: &Context, op: OpId) -> (r: bool)
    requires
        context.inv(),
        context@.ir.op(op) is Some,
    ensures
        r == segments_fit(context@.ir.op(op)->0.attributes),
{
    match sizes_of(&context.op_attributes(op)) {
        Some(items) => {
            let ghost views = attr_views(items@);
            let mut start: usize = 0;
            let mut i: usize = 0;
            while i < items.len()
                invariant
                    i <= items.len(),
                    views == attr_views(items@),
                    recorded_sizes(context@.ir.op(op)->0.attributes) == Some(views),
                    start == segment_end(views, i - 1),
                decreases items.len() - i,
            {
                assert(views[i as int] == items@[i as int]@);
                proof {
                    ends_rise(views, i as int, views.len() - 1);
                }
                let end: u128 = start as u128 + size_of_item(&items[i]) as u128;
                if end > usize::MAX as u128 {
                    return false;
                }
                start = end as usize;
                i += 1;
            }
            true
        },
        None => true,
    }
}

/// The operand range of each declared operand group, read off the segment sizes
/// a variadic op records; a fixed-arity op has one operand per group.
pub fn operand_segments(context: &Context, op: OpId, groups: usize) -> (r: Vec<IndexRange>)
    requires
        context.inv(),
        context@.ir.op(op) is Some,
        segments_fit(context@.ir.op(op)->0.attributes),
    ensures
        r@.map_values(|x: IndexRange| as_pair(x)) == segments(
            context@.ir.op(op)->0.attributes,
            groups as nat,
        ),
{
    let ghost attributes = context@.ir.op(op)->0.attributes;
    let mut r: Vec<IndexRange> = Vec::new();
    match sizes_of(&context.op_attributes(op)) {
        Some(items) => {
            let ghost views = attr_views(items@);
            let mut start: usize = 0;
            let mut i: usize = 0;
            while i < items.len()
                invariant
                    i <= items.len(),
                    views == attr_views(items@),
                    segment_end(views, views.len() - 1) <= usize::MAX,
                    start == segment_end(views, i - 1),
                    r.len() == i,
                    forall|j: int|
                        0 <= j < i ==> as_pair(#[trigger] r@[j]) == (
                            segment_end(views, j - 1),
                            segment_end(views, j),
                        ),
                decreases items.len() - i,
            {
                assert(views[i as int] == items@[i as int]@);
                proof {
                    ends_rise(views, i as int, views.len() - 1);
                }
                let end: usize = start + size_of_item(&items[i]) as usize;
                r.push(IndexRange::new(start, end));
                start = end;
                i += 1;
            }
            assert(r@.map_values(|x: IndexRange| as_pair(x)) =~= segments(
                attributes,
                groups as nat,
            ));
        },
        None => {
            let mut i: usize = 0;
            while i < groups
                invariant
                    i <= groups,
                    r.len() == i,
                    forall|j: int|
                        0 <= j < i ==> as_pair(#[trigger] r@[j]) == (j as nat, (j + 1) as nat),
                decreases groups - i,
            {
                r.push(IndexRange::new(i, i + 1));
                i += 1;
            }
            assert(r@.map_values(|x: IndexRange| as_pair(x)) =~= segments(
                attributes,
                groups as nat,
            ));
        },
    }
    r
}

impl ContextView {
    /// How many ports (or results) the `index`-th region of `op` has; zero for
    /// a region the op does not hold.
    pub open spec fn region_list_len(self, op: OpId, index: int, ports: bool) -> nat {
        let regions = self.ir.op(op)->0.regions;
        if 0 <= index < regions.len() {
            if ports {
                self.region_ports(regions[index]).len()
            } else {
                self.region_results(regions[index]).len()
            }
        } else {
            0
        }
    }
}

/// How many ports (or results) the op's `index`-th region has; zero for a
/// region the op does not hold, so a gamma with no arms still answers.
pub fn region_list_len(context: &Context, op: OpId, index: usize, ports: bool) -> (n: usize)
    requires
        context.inv(),
        context@.ir.op(op) is Some,
    ensures
        n == context@.region_list_len(op, index as int, ports),
{
    let regions = context.regions_of(op);
    if index >= regions.len() {
        return 0;
    }
    if ports {
        context.region_ports(regions[index]).len()
    } else {
        context.region_results(regions[index]).len()
    }
}

/// How a structured op carries its values.
#[derive(Debug, Clone, Copy, PartialEq, Eq, Structural)]
pub enum Carrier {
    /// A loop that runs until its predicate is false.
    Loop,
    /// A loop that counts.
    For,
    /// A gate that runs one of its arms.
    Switch,
}

impl ContextView {
    /// How `op` carries values, where it is a declared loop or gate.
    pub open spec fn carrier(self, op: OpId) -> Option<Carrier> {
        if self.is_op(op, "scf"@, "loop"@) {
            Some(Carrier::Loop)
        } else if self.is_op(op, "scf"@, "for"@) {
            Some(Carrier::For)
        } else if self.is_op(op, "scf"@, "switch"@) {
            Some(Carrier::Switch)
        } else {
            None
        }
    }

    /// Whether `op` is a declared loop.
    pub open spec fn is_theta(self, op: OpId) -> bool {
        self.carrier(op) == Some(Carrier::Loop) || self.carrier(op) == Some(Carrier::For)
    }

    /// The operand positions a declared loop or gate carries values in through.
    pub open spec fn carried_operands(self, op: OpId) -> (nat, nat) {
        let attributes = self.ir.op(op)->0.attributes;
        match self.carrier(op) {
            Some(Carrier::Loop) => segments(attributes, 1)[0],
            Some(Carrier::For) => (
                segments(attributes, 4)[0].0,
                segments(attributes, 4)[1].1,
            ),
            _ => segments(attributes, 2)[1],
        }
    }

    /// Whether a declared loop or gate records the operand groups it declares.
    pub open spec fn groups_recorded(self, op: OpId) -> bool {
        let attributes = self.ir.op(op)->0.attributes;
        segments_fit(attributes) && match self.carrier(op) {
            Some(Carrier::Loop) => segments(attributes, 1).len() >= 1,
            Some(Carrier::For) => segments(attributes, 4).len() >= 2,
            Some(Carrier::Switch) => segments(attributes, 2).len() >= 2,
            None => true,
        }
    }

    /// The binding of a declared loop or gate: the carried operands, every port
    /// of the first region, its results (a loop's predicate comes first, then
    /// what the next iteration carries, then what the loop leaves), and every
    /// result of the op.
    pub open spec fn binding(self, op: OpId) -> Binding {
        let carried = self.carried_operands(op);
        let n = carried.1 - carried.0;
        let named = self.region_list_len(op, 0, false);
        Binding {
            operands: IndexRange { start: carried.0 as usize, end: carried.1 as usize },
            ports: IndexRange { start: 0, end: self.region_list_len(op, 0, true) as usize },
            continue_: if self.is_theta(op) {
                IndexRange { start: 1, end: (n + 1) as usize }
            } else {
                IndexRange { start: 0, end: 0 }
            },
            exit: if self.is_theta(op) {
                IndexRange { start: (n + 1) as usize, end: named as usize }
            } else {
                IndexRange { start: 0, end: named as usize }
            },
            results: IndexRange { start: 0, end: self.ir.op(op)->0.results.len() as usize },
        }
    }
}

/// How `op` carries values, where it is a declared loop or gate.
pub fn carrier(context: &Context, op: OpId) -> (r: Option<Carrier>)
    requires
        context.inv(),
        context@.readable(op),
    ensures
        r == context@.carrier(op),
{
    let handle = context.get_op(op);
    if handle.is_name(context, "scf", "loop") {
        Some(Carrier::Loop)
    } else if handle.is_name(context, "scf", "for") {
        Some(Carrier::For)
    } else if handle.is_name(context, "scf", "switch") {
        Some(Carrier::Switch)
    } else {
        None
    }
}

proof fn segment_range_rises(attributes: Seq<(Seq<char>, AttrView)>, groups: nat, i: int, j: int)
    requires
        0 <= i <= j < segments(attributes, groups).len(),
        segments_fit(attributes),
        groups < usize::MAX,
    ensures
        segments(attributes, groups)[i].0 <= segments(attributes, groups)[j].1 <= usize::MAX,
{
    match recorded_sizes(attributes) {
        Some(items) => {
            ends_rise(items, i - 1, j);
            ends_rise(items, j, items.len() - 1);
        },
        None => {},
    }
}

/// The binding a loop or a gate declares: what it carries in, through and out.
pub fn declared(context: &Context, op: OpId) -> (r: Option<Binding>)
    requires
        context.inv(),
        context@.readable(op),
        context@.groups_recorded(op),
        context@.carried_operands(op).1 - context@.carried_operands(op).0 < usize::MAX,
    ensures
        r == match context@.carrier(op) {
            Some(_) => Some(context@.binding(op)),
            None => None,
        },
{
    let kind = match carrier(context, op) {
        Some(kind) => kind,
        None => {
            return None;
        },
    };
    let ghost attributes = context@.ir.op(op)->0.attributes;
    let operands: IndexRange = match kind {
        Carrier::Loop => {
            let segs = operand_segments(context, op, 1);
            let ghost pairs = segs@.map_values(|x: IndexRange| as_pair(x));
            assert(pairs[0] == as_pair(segs@[0]));
            segs[0]
        },
        Carrier::For => {
            let segs = operand_segments(context, op, 4);
            let ghost pairs = segs@.map_values(|x: IndexRange| as_pair(x));
            assert(pairs[0] == as_pair(segs@[0]));
            assert(pairs[1] == as_pair(segs@[1]));
            IndexRange::new(segs[0].start, segs[1].end)
        },
        Carrier::Switch => {
            let segs = operand_segments(context, op, 2);
            let ghost pairs = segs@.map_values(|x: IndexRange| as_pair(x));
            assert(pairs[1] == as_pair(segs@[1]));
            segs[1]
        },
    };
    proof {
        match kind {
            Carrier::Loop => {
                segment_range_rises(attributes, 1, 0, 0);
            },
            Carrier::For => {
                segment_range_rises(attributes, 4, 0, 1);
            },
            Carrier::Switch => {
                segment_range_rises(attributes, 2, 1, 1);
            },
        }
        assert(as_pair(operands) == context@.carried_operands(op));
    }
    let n: usize = operands.end - operands.start;
    let ports: usize = region_list_len(context, op, 0, true);
    let named: usize = region_list_len(context, op, 0, false);
    let results: usize = context.results_of(op).len();
    let (continue_, exit) = match kind {
        Carrier::Switch => (IndexRange::new(0, 0), IndexRange::new(0, named)),
        _ => (IndexRange::new(1, n + 1), IndexRange::new(n + 1, named)),
    };
    Some(
        Binding {
            operands,
            ports: IndexRange::new(0, ports),
            continue_,
            exit,
            results: IndexRange::new(0, results),
        },
    )
}

/// Where one state a loop or a gate carries sits, as absolute positions into
/// the op's operands and results and its regions' ports and results. A
/// loop carries a state through one aligned list; a gate forwards its
/// states into every arm and joins them back by a second alignment, and its
/// i-th forwarded and i-th joined state are one chain.
#[derive(Clone, Copy, Debug, PartialEq, Eq, Structural)]
pub struct StateSlot {
    pub operand: usize,
    pub port: usize,
    /// A loop's continue result; a gate has none.
    pub continue_: Option<usize>,
    pub exit: usize,
    pub result: usize,
}

/// The positions below `n` at which `types` has the memory state type.
pub open spec fn state_positions(types: Seq<TypeId>, n: int) -> Seq<int>
    decreases n,
{
    if n <= 0 || n > types.len() {
        Seq::empty()
    } else if types[n - 1] == state_type() {
        state_positions(types, n - 1).push(n - 1)
    } else {
        state_positions(types, n - 1)
    }
}

/// The positions a list of states gives are positions of it, in order, and all
/// there are.
pub proof fn state_positions_are_all(types: Seq<TypeId>, n: int)
    requires
        0 <= n <= types.len(),
    ensures
        forall|k: int|
            0 <= k < state_positions(types, n).len() ==> 0 <= #[trigger] state_positions(
                types,
                n,
            )[k] < n && types[state_positions(types, n)[k]] == state_type(),
        forall|i: int|
            0 <= i < n && #[trigger] types[i] == state_type() ==> state_positions(
                types,
                n,
            ).contains(i),
        state_positions(types, n).len() <= n,
    decreases n,
{
    if n > 0 {
        state_positions_are_all(types, n - 1);
        let before = state_positions(types, n - 1);
        let all = state_positions(types, n);
        crate::seqs::push_contains(before, n - 1);
        assert forall|i: int| 0 <= i < n && #[trigger] types[i] == state_type() implies all.contains(
            i,
        ) by {
            if i < n - 1 {
                assert(before.contains(i));
            }
        }
    }
}

impl ContextView {
    /// The types of the ports of the first region of `op`.
    pub open spec fn port_types(self, op: OpId) -> Seq<TypeId> {
        self.region_ports(self.ir.op(op)->0.regions[0]).map_values(|v: Value| v.ty)
    }

    /// The types of the results of `op`.
    pub open spec fn result_types(self, op: OpId) -> Seq<TypeId> {
        self.ir.op(op)->0.results.map_values(|v: ValueId| self.type_of(v))
    }

    /// The slot of a loop's state at port `at`.
    pub open spec fn loop_slot(self, op: OpId, at: int) -> StateSlot {
        let binding = self.binding(op);
        StateSlot {
            operand: (binding.operands.start + at) as usize,
            port: (binding.ports.start + at) as usize,
            continue_: Some((binding.continue_.start + at) as usize),
            exit: (binding.exit.start + at) as usize,
            result: (binding.results.start + at) as usize,
        }
    }

    /// The slot of a gate's chain that enters at port `forwarded` and leaves at
    /// result `joined`.
    pub open spec fn gate_slot(self, op: OpId, forwarded: int, joined: int) -> StateSlot {
        let binding = self.binding(op);
        StateSlot {
            operand: (binding.operands.start + forwarded) as usize,
            port: (binding.ports.start + forwarded) as usize,
            continue_: None,
            exit: (binding.exit.start + joined) as usize,
            result: (binding.results.start + joined) as usize,
        }
    }

    /// The states a loop or a gate carries, in chain order.
    pub open spec fn state_slots(self, op: OpId) -> Seq<StateSlot> {
        if self.carrier(op) is None || self.ir.op(op)->0.regions.len() == 0 {
            Seq::empty()
        } else {
            let ports = self.port_types(op);
            let forwarded = state_positions(ports, ports.len() as int);
            if self.is_theta(op) {
                Seq::new(forwarded.len(), |i: int| self.loop_slot(op, forwarded[i]))
            } else {
                let results = self.result_types(op);
                let joined = state_positions(results, results.len() as int);
                Seq::new(
                    if forwarded.len() < joined.len() {
                        forwarded.len()
                    } else {
                        joined.len()
                    },
                    |i: int| self.gate_slot(op, forwarded[i], joined[i]),
                )
            }
        }
    }

    /// Whether every one of `values` is live.
    pub open spec fn values_live(self, values: Seq<ValueId>) -> bool {
        forall|i: int| 0 <= i < values.len() ==> self.ir.value(#[trigger] values[i]) is Some
    }
}

fn state_ports(ports: &Vec<Value>) -> (r: Vec<usize>)
    ensures
        r@.map_values(|i: usize| i as int) == state_positions(
            ports@.map_values(|v: Value| v.ty),
            ports@.len() as int,
        ),
{
    let ghost types = ports@.map_values(|v: Value| v.ty);
    let mut r: Vec<usize> = Vec::new();
    let mut i: usize = 0;
    assert(r@.map_values(|i: usize| i as int) =~= state_positions(types, 0));
    while i < ports.len()
        invariant
            i <= ports.len(),
            types == ports@.map_values(|v: Value| v.ty),
            r@.map_values(|i: usize| i as int) =~= state_positions(types, i as int),
        decreases ports.len() - i,
    {
        let ghost before = r@.map_values(|i: usize| i as int);
        if ports[i].is_state() {
            r.push(i);
            assert(r@.map_values(|i: usize| i as int) =~= before.push(i as int));
        }
        i += 1;
    }
    r
}

fn state_values(context: &Context, values: &Vec<ValueId>) -> (r: Vec<usize>)
    requires
        context.inv(),
        context@.values_live(values@),
    ensures
        r@.map_values(|i: usize| i as int) == state_positions(
            values@.map_values(|v: ValueId| context@.type_of(v)),
            values@.len() as int,
        ),
{
    let ghost types = values@.map_values(|v: ValueId| context@.type_of(v));
    let mut r: Vec<usize> = Vec::new();
    let mut i: usize = 0;
    assert(r@.map_values(|i: usize| i as int) =~= state_positions(types, 0));
    while i < values.len()
        invariant
            context.inv(),
            context@.values_live(values@),
            i <= values.len(),
            types == values@.map_values(|v: ValueId| context@.type_of(v)),
            r@.map_values(|i: usize| i as int) =~= state_positions(types, i as int),
        decreases values.len() - i,
    {
        let ghost before = r@.map_values(|i: usize| i as int);
        assert(context@.ir.value(values@[i as int]) is Some);
        if context.get_value(values[i]).is_state() {
            r.push(i);
            assert(r@.map_values(|i: usize| i as int) =~= before.push(i as int));
        }
        i += 1;
    }
    r
}

/// The states a loop or a gate carries, in chain order.
pub fn state_slots(context: &Context, op: OpId) -> (r: Vec<StateSlot>)
    requires
        context.inv(),
        context@.readable(op),
        context@.groups_recorded(op),
        context@.carried_operands(op).1 <= MAX_IDS,
        context@.carrier(op) is Some && context@.ir.op(op)->0.regions.len() > 0
            ==> context@.port_types(op).len() <= MAX_IDS,
        context@.values_live(context@.ir.op(op)->0.results),
    ensures
        r@ == context@.state_slots(op),
{
    let mut r: Vec<StateSlot> = Vec::new();
    assert(r@ =~= Seq::<StateSlot>::empty());
    let binding = match declared(context, op) {
        Some(binding) => binding,
        None => {
            return r;
        },
    };
    proof {
        let attributes = context@.ir.op(op)->0.attributes;
        match context@.carrier(op)->0 {
            Carrier::Loop => {
                segment_range_rises(attributes, 1, 0, 0);
            },
            Carrier::For => {
                segment_range_rises(attributes, 4, 0, 1);
            },
            Carrier::Switch => {
                segment_range_rises(attributes, 2, 1, 1);
            },
        }
    }
    let regions = context.regions_of(op);
    if regions.len() == 0 {
        return r;
    }
    let ports = context.region_ports(regions[0]);
    let ghost types = context@.port_types(op);
    let forwarded = state_ports(&ports);
    let ghost entering = state_positions(types, types.len() as int);
    proof {
        state_positions_are_all(types, types.len() as int);
    }
    let theta = match carrier(context, op) {
        Some(Carrier::Switch) => false,
        _ => true,
    };
    if theta {
        assert(binding.exit.start == binding.operands.end - binding.operands.start + 1);
        let mut i: usize = 0;
        while i < forwarded.len()
            invariant
                binding.exit.start <= MAX_IDS + 1,
                i <= forwarded.len(),
                binding == context@.binding(op),
                binding.operands.start <= MAX_IDS,
                binding.operands.end <= MAX_IDS,
                context@.is_theta(op),
                types == context@.port_types(op),
                types.len() <= MAX_IDS,
                entering == state_positions(types, types.len() as int),
                forall|k: int| 0 <= k < entering.len() ==> 0 <= #[trigger] entering[k] < types.len(),
                forwarded@.map_values(|i: usize| i as int) == entering,
                r.len() == i,
                forall|j: int| 0 <= j < i ==> #[trigger] r@[j] == context@.loop_slot(op, entering[j]),
            decreases forwarded.len() - i,
        {
            let at: usize = forwarded[i];
            assert(forwarded@.map_values(|i: usize| i as int)[i as int] == at);
            assert(entering[i as int] == at);
            r.push(
                StateSlot {
                    operand: binding.operands.start + at,
                    port: binding.ports.start + at,
                    continue_: Some(binding.continue_.start + at),
                    exit: binding.exit.start + at,
                    result: binding.results.start + at,
                },
            );
            i += 1;
        }
        assert(r@ =~= context@.state_slots(op));
        return r;
    }
    let results = context.results_of(op);
    let joined = state_values(context, results);
    let ghost result_types = context@.result_types(op);
    let ghost leaving = state_positions(result_types, result_types.len() as int);
    proof {
        state_positions_are_all(result_types, result_types.len() as int);
        assert(result_types =~= results@.map_values(|v: ValueId| context@.type_of(v)));
    }
    let mut i: usize = 0;
    while i < forwarded.len() && i < joined.len()
        invariant
            i <= forwarded.len(),
            i <= joined.len(),
            binding == context@.binding(op),
            binding.operands.start <= MAX_IDS,
            context@.carrier(op) == Some(Carrier::Switch),
            types == context@.port_types(op),
            types.len() <= MAX_IDS,
            result_types == context@.result_types(op),
            result_types.len() <= MAX_IDS,
            entering == state_positions(types, types.len() as int),
            leaving == state_positions(result_types, result_types.len() as int),
            forall|k: int| 0 <= k < entering.len() ==> 0 <= #[trigger] entering[k] < types.len(),
            forall|k: int|
                0 <= k < leaving.len() ==> 0 <= #[trigger] leaving[k] < result_types.len(),
            forwarded@.map_values(|i: usize| i as int) == entering,
            joined@.map_values(|i: usize| i as int) == leaving,
            r.len() == i,
            forall|j: int|
                0 <= j < i ==> #[trigger] r@[j] == context@.gate_slot(op, entering[j], leaving[j]),
        decreases forwarded.len() - i,
    {
        let enters: usize = forwarded[i];
        let leaves: usize = joined[i];
        assert(forwarded@.map_values(|i: usize| i as int)[i as int] == enters);
        assert(joined@.map_values(|i: usize| i as int)[i as int] == leaves);
        assert(entering[i as int] == enters);
        assert(leaving[i as int] == leaves);
        r.push(
            StateSlot {
                operand: binding.operands.start + enters,
                port: binding.ports.start + enters,
                continue_: None,
                exit: binding.exit.start + leaves,
                result: binding.results.start + leaves,
            },
        );
        i += 1;
    }
    assert(r@ =~= context@.state_slots(op));
    r
}

impl ContextView {
    /// Whether `region` hands the state at `slot` straight back.
    pub open spec fn region_forwards(self, region: RegionId, slot: StateSlot) -> bool {
        let port = self.region_ports(region)[slot.port as int].id;
        let results = self.region_results(region);
        &&& slot.continue_ is Some ==> slot.continue_->0 < results.len() && results[
            slot.continue_->0 as int
        ] == port
        &&& slot.exit < results.len() && results[slot.exit as int] == port
    }

    /// Whether every region of `op` hands the state at `slot` straight back.
    pub open spec fn forwards_state(self, op: OpId, slot: StateSlot) -> bool {
        let regions = self.ir.op(op)->0.regions;
        forall|i: int|
            0 <= i < regions.len() ==> self.region_forwards(#[trigger] regions[i], slot)
    }
}

/// Whether every region of `op` hands the state at `slot` straight back, in
/// every result group: the chain flows past the operation rather than
/// through it, since nothing under it changed the memory.
pub fn forwards_state(context: &Context, op: OpId, slot: StateSlot) -> (r: bool)
    requires
        context.inv(),
        context@.ir.op(op) is Some,
        forall|i: int|
            0 <= i < context@.ir.op(op)->0.regions.len() ==> slot.port < context@.region_ports(
                #[trigger] context@.ir.op(op)->0.regions[i],
            ).len(),
    ensures
        r == context@.forwards_state(op, slot),
{
    let regions = context.regions_of(op);
    let mut i: usize = 0;
    while i < regions.len()
        invariant
            context.inv(),
            i <= regions.len(),
            regions@ == context@.ir.op(op)->0.regions,
            forall|i: int|
                0 <= i < regions@.len() ==> slot.port < context@.region_ports(
                    #[trigger] regions@[i],
                ).len(),
            forall|j: int|
                0 <= j < i ==> context@.region_forwards(#[trigger] regions@[j], slot),
        decreases regions.len() - i,
    {
        let region = regions[i];
        assert(slot.port < context@.region_ports(regions@[i as int]).len());
        let port = context.region_ports(region)[slot.port].id;
        let results = context.region_results(region);
        let continues = match slot.continue_ {
            Some(at) => at < results.len() && results[at] == port,
            None => true,
        };
        if !(continues && slot.exit < results.len() && results[slot.exit] == port) {
            assert(!context@.region_forwards(regions@[i as int], slot));
            return false;
        }
        i += 1;
    }
    true
}

/// How many entries of a list of `len` the range reaches: its length when it
/// fits, else what is left after its start.
pub open spec fn reach(range: IndexRange, len: nat) -> nat {
    if range.end <= len {
        range.count()
    } else if len >= range.start {
        (len - range.start) as nat
    } else {
        0
    }
}

fn reached(range: &IndexRange, len: usize) -> (n: usize)
    ensures
        n == reach(*range, len as nat),
{
    if range.end <= len {
        range.len()
    } else if len >= range.start {
        len - range.start
    } else {
        0
    }
}

/// Whether a range, cut to a list of `len`, runs forwards.
pub open spec fn sliceable(len: nat, range: IndexRange) -> bool {
    range.start <= range.end || len <= range.end
}

/// The entries of `values` the range names.
pub open spec fn sliced(values: Seq<ValueId>, range: IndexRange) -> Seq<ValueId> {
    let start = if range.start < values.len() {
        range.start as int
    } else {
        values.len() as int
    };
    let end = if range.end < values.len() {
        range.end as int
    } else {
        values.len() as int
    };
    values.subrange(start, end)
}

pub fn slice(values: &Vec<ValueId>, range: &IndexRange) -> (r: Vec<ValueId>)
    requires
        sliceable(values@.len(), *range),
    ensures
        r@ == sliced(values@, *range),
{
    let start: usize = if range.start < values.len() {
        range.start
    } else {
        values.len()
    };
    let end: usize = if range.end < values.len() {
        range.end
    } else {
        values.len()
    };
    let mut r: Vec<ValueId> = Vec::new();
    let mut i: usize = start;
    while i < end
        invariant
            start <= i <= end <= values.len(),
            r@ =~= values@.subrange(start as int, i as int),
        decreases end - i,
    {
        r.push(values[i]);
        i += 1;
    }
    r
}

/// Why one of the first `n` of `found` differs in type from its `expected`.
pub open spec fn types_failure(
    context: ContextView,
    name: Seq<char>,
    expected: Seq<ValueId>,
    found: Seq<ValueId>,
    what: Seq<char>,
    against: Seq<char>,
    n: int,
) -> Option<Seq<char>>
    decreases n,
{
    if n <= 0 {
        None
    } else {
        either(
            types_failure(context, name, expected, found, what, against, n - 1),
            if context.type_of(expected[n - 1]) != context.type_of(found[n - 1]) {
                let index = decimal((n - 1) as nat);
                Some(
                    name + " "@ + what + " "@ + index + " must have the type of "@ + (against
                        + " "@ + index),
                )
            } else {
                None
            },
        )
    }
}

/// How many pairs two lists make.
pub open spec fn pairs(a: nat, b: nat) -> int {
    if a < b {
        a as int
    } else {
        b as int
    }
}

proof fn types_failure_stays(
    context: ContextView,
    name: Seq<char>,
    expected: Seq<ValueId>,
    found: Seq<ValueId>,
    what: Seq<char>,
    against: Seq<char>,
    n: int,
    m: int,
)
    requires
        0 < n <= m,
        types_failure(context, name, expected, found, what, against, n) is Some,
    ensures
        types_failure(context, name, expected, found, what, against, m) == types_failure(
            context,
            name,
            expected,
            found,
            what,
            against,
            n,
        ),
    decreases m - n,
{
    if n < m {
        types_failure_stays(context, name, expected, found, what, against, n, m - 1);
    }
}

fn check_types(
    context: &Context,
    name: &str,
    expected: &Vec<ValueId>,
    found: &Vec<ValueId>,
    what: &str,
    against: &str,
) -> (r: Result<(), Error>)
    requires
        context.inv(),
        context@.values_live(expected@),
        context@.values_live(found@),
    ensures
        verdict(
            r,
            types_failure(
                context@,
                name@,
                expected@,
                found@,
                what@,
                against@,
                pairs(expected@.len(), found@.len()),
            ),
        ),
{
    let n: usize = if expected.len() < found.len() {
        expected.len()
    } else {
        found.len()
    };
    let mut i: usize = 0;
    while i < n
        invariant
            context.inv(),
            context@.values_live(expected@),
            context@.values_live(found@),
            i <= n,
            n <= expected.len(),
            n <= found.len(),
            n == pairs(expected@.len(), found@.len()),
            types_failure(context@, name@, expected@, found@, what@, against@, i as int) is None,
        decreases n - i,
    {
        assert(context@.ir.value(expected@[i as int]) is Some);
        assert(context@.ir.value(found@[i as int]) is Some);
        if context.get_value(expected[i]).ty != context.get_value(found[i]).ty {
            proof {
                types_failure_stays(
                    context@,
                    name@,
                    expected@,
                    found@,
                    what@,
                    against@,
                    i + 1,
                    n as int,
                );
            }
            let index = decimal_string(i as u64);
            let tail = cat3(against, " ", index.as_str());
            return Err(
                invalid(
                    cat7(
                        name,
                        " ",
                        what,
                        " ",
                        index.as_str(),
                        " must have the type of ",
                        tail.as_str(),
                    ).as_str(),
                ),
            );
        }
        i += 1;
    }
    Ok(())
}

/// The ids of a list of values.
pub open spec fn ids_of(values: Seq<Value>) -> Seq<ValueId> {
    values.map_values(|v: Value| v.id)
}

fn value_ids(values: &Vec<Value>) -> (r: Vec<ValueId>)
    ensures
        r@ == ids_of(values@),
{
    let mut r: Vec<ValueId> = Vec::new();
    let mut i: usize = 0;
    while i < values.len()
        invariant
            i <= values.len(),
            r.len() == i,
            forall|j: int| 0 <= j < i ==> #[trigger] r@[j] == values@[j].id,
        decreases values.len() - i,
    {
        r.push(values[i].id);
        i += 1;
    }
    assert(r@ =~= ids_of(values@));
    r
}

/// The ports of a region.
pub fn port_ids(context: &Context, region: RegionId) -> (r: Vec<ValueId>)
    requires
        context.inv(),
    ensures
        r@ == ids_of(context@.region_ports(region)),
{
    value_ids(&context.region_ports(region))
}

/// Why a loop that carries `n` values has `found` of `what`.
pub open spec fn count_failure(name: Seq<char>, n: nat, found: nat, what: Seq<char>) -> Option<
    Seq<char>,
> {
    if found == n {
        None
    } else {
        Some(
            name + " carries "@ + decimal(n) + " values but has "@ + decimal(found) + (" "@ + what),
        )
    }
}

fn check_count(name: &str, n: usize, found: usize, what: &str) -> (r: Result<(), Error>)
    ensures
        verdict(r, count_failure(name@, n as nat, found as nat, what@)),
{
    if found != n {
        let tail = cat2(" ", what);
        return Err(
            invalid(
                cat6(
                    name,
                    " carries ",
                    decimal_string(n as u64).as_str(),
                    " values but has ",
                    decimal_string(found as u64).as_str(),
                    tail.as_str(),
                ).as_str(),
            ),
        );
    }
    Ok(())
}

/// Why a loop's declared alignment does not hold.
pub open spec fn theta_failure(
    context: ContextView,
    op: OpId,
    name: Seq<char>,
    body: RegionId,
    binding: Binding,
    predicate: int,
) -> Option<Seq<char>> {
    let ports = ids_of(context.region_ports(body));
    let results = context.region_results(body);
    let inits = sliced(context.ir.op(op)->0.operands, binding.operands);
    let carried = sliced(ports, binding.ports);
    let continued = sliced(results, binding.continue_);
    let left = sliced(results, binding.exit);
    let produced = sliced(context.ir.op(op)->0.results, binding.results);
    either(
        theta_counts(context, op, name, body, binding, predicate),
        either(
            types_failure(
                context,
                name,
                inits,
                carried,
                "port"@,
                "init"@,
                pairs(inits.len(), carried.len()),
            ),
            either(
                types_failure(
                    context,
                    name,
                    carried,
                    continued,
                    "continue value"@,
                    "port"@,
                    pairs(carried.len(), continued.len()),
                ),
                either(
                    types_failure(
                        context,
                        name,
                        carried,
                        left,
                        "exit value"@,
                        "port"@,
                        pairs(carried.len(), left.len()),
                    ),
                    types_failure(
                        context,
                        name,
                        carried,
                        produced,
                        "result"@,
                        "port"@,
                        pairs(carried.len(), produced.len()),
                    ),
                ),
            ),
        ),
    )
}

/// Why a loop has no predicate, or its ranges do not reach as many values.
pub open spec fn theta_counts(
    context: ContextView,
    op: OpId,
    name: Seq<char>,
    body: RegionId,
    binding: Binding,
    predicate: int,
) -> Option<Seq<char>> {
    let ports = context.region_ports(body);
    let results = context.region_results(body);
    let op_results = context.ir.op(op)->0.results;
    let n = binding.operands.count();
    if predicate >= results.len() {
        Some(name + " body must produce a predicate"@)
    } else if context.types[context.type_of(results[predicate]).0 as int] != TypeView::Integer(1) {
        Some(name + " predicate must have type i1"@)
    } else {
        either(
            count_failure(name, n, reach(binding.ports, ports.len()), "ports"@),
            either(
                count_failure(
                    name,
                    n,
                    reach(binding.continue_, results.len()),
                    "continue values"@,
                ),
                either(
                    count_failure(name, n, reach(binding.exit, results.len()), "exit values"@),
                    count_failure(name, n, reach(binding.results, op_results.len()), "results"@),
                ),
            ),
        )
    }
}

proof fn slice_is_live(context: ContextView, values: Seq<ValueId>, range: IndexRange)
    requires
        context.values_live(values),
        sliceable(values.len(), range),
    ensures
        context.values_live(sliced(values, range)),
{
    let s = sliced(values, range);
    let start = if range.start < values.len() {
        range.start as int
    } else {
        values.len() as int
    };
    assert forall|i: int| 0 <= i < s.len() implies context.ir.value(#[trigger] s[i]) is Some by {
        assert(s[i] == values[start + i]);
    }
}

/// Checks a theta's declared alignment: five ranges of one length, one type per
/// offset, and a boolean predicate.
pub fn verify_theta(
    context: &Context,
    op: OpId,
    name: &str,
    body: RegionId,
    binding: &Binding,
    predicate: usize,
) -> (r: Result<(), Error>)
    requires
        context.inv(),
        context@.sound(),
        context@.ir.op(op) is Some,
        theta_counts(context@, op, name@, body, *binding, predicate as int) is None ==> {
            &&& sliceable(context@.ir.op(op)->0.operands.len(), binding.operands)
            &&& sliceable(context@.region_ports(body).len(), binding.ports)
            &&& sliceable(context@.region_results(body).len(), binding.continue_)
            &&& sliceable(context@.region_results(body).len(), binding.exit)
            &&& sliceable(context@.ir.op(op)->0.results.len(), binding.results)
        },
        context@.values_live(ids_of(context@.region_ports(body))),
        context@.values_live(context@.region_results(body)),
        context@.values_live(context@.ir.op(op)->0.operands),
        context@.values_live(context@.ir.op(op)->0.results),
    ensures
        verdict(r, theta_failure(context@, op, name@, body, *binding, predicate as int)),
{
    let ports = port_ids(context, body);
    let results = context.region_results(body);
    let operands = copy_list(context.operands_of(op));
    let op_results = copy_list(context.results_of(op));
    let n: usize = binding.operands.len();
    if predicate >= results.len() {
        return Err(invalid(cat2(name, " body must produce a predicate").as_str()));
    }
    let decides = results[predicate];
    assert(context@.ir.value(results@[predicate as int]) is Some);
    assert(context@.value_sound(decides));
    let boolean = match context.get_type_data(context.get_value(decides).ty) {
        Type::Integer(t) => t.width == 1,
        _ => false,
    };
    if !boolean {
        return Err(invalid(cat2(name, " predicate must have type i1").as_str()));
    }
    match check_count(name, n, reached(&binding.ports, ports.len()), "ports") {
        Ok(_) => {},
        Err(e) => {
            return Err(e);
        },
    }
    match check_count(name, n, reached(&binding.continue_, results.len()), "continue values") {
        Ok(_) => {},
        Err(e) => {
            return Err(e);
        },
    }
    match check_count(name, n, reached(&binding.exit, results.len()), "exit values") {
        Ok(_) => {},
        Err(e) => {
            return Err(e);
        },
    }
    match check_count(name, n, reached(&binding.results, op_results.len()), "results") {
        Ok(_) => {},
        Err(e) => {
            return Err(e);
        },
    }
    proof {
        slice_is_live(context@, operands@, binding.operands);
        slice_is_live(context@, ports@, binding.ports);
        slice_is_live(context@, results@, binding.continue_);
        slice_is_live(context@, results@, binding.exit);
        slice_is_live(context@, op_results@, binding.results);
    }
    let inits = slice(&operands, &binding.operands);
    let carried = slice(&ports, &binding.ports);
    match check_types(context, name, &inits, &carried, "port", "init") {
        Ok(_) => {},
        Err(e) => {
            return Err(e);
        },
    }
    let continued = slice(&results, &binding.continue_);
    match check_types(context, name, &carried, &continued, "continue value", "port") {
        Ok(_) => {},
        Err(e) => {
            return Err(e);
        },
    }
    let left = slice(&results, &binding.exit);
    match check_types(context, name, &carried, &left, "exit value", "port") {
        Ok(_) => {},
        Err(e) => {
            return Err(e);
        },
    }
    let produced = slice(&op_results, &binding.results);
    check_types(context, name, &carried, &produced, "result", "port")
}

/// Why the arm at `index` does not fit what a gate forwards and produces.
pub open spec fn arm_failure(
    context: ContextView,
    name: Seq<char>,
    arm: RegionId,
    index: nat,
    inputs: Seq<ValueId>,
    results: Seq<ValueId>,
) -> Option<Seq<char>> {
    let ports = ids_of(context.region_ports(arm));
    let produced = context.region_results(arm);
    let who = name + " arm "@ + decimal(index);
    if ports.len() != inputs.len() {
        Some(
            who + " takes "@ + decimal(ports.len()) + " values but the op forwards "@ + decimal(
                inputs.len(),
            ),
        )
    } else if produced.len() != results.len() {
        Some(
            who + " produces "@ + decimal(produced.len()) + " values but the op produces "@
                + decimal(results.len()),
        )
    } else {
        either(
            types_failure(
                context,
                who,
                inputs,
                ports,
                "port"@,
                "input"@,
                pairs(inputs.len(), ports.len()),
            ),
            types_failure(
                context,
                who,
                results,
                produced,
                "value"@,
                "result"@,
                pairs(results.len(), produced.len()),
            ),
        )
    }
}

/// Why one of the first `n` arms does not fit.
pub open spec fn arms_failure(
    context: ContextView,
    name: Seq<char>,
    arms: Seq<RegionId>,
    inputs: Seq<ValueId>,
    results: Seq<ValueId>,
    n: int,
) -> Option<Seq<char>>
    decreases n,
{
    if n <= 0 {
        None
    } else {
        either(
            arms_failure(context, name, arms, inputs, results, n - 1),
            arm_failure(context, name, arms[n - 1], (n - 1) as nat, inputs, results),
        )
    }
}

proof fn arms_failure_stays(
    context: ContextView,
    name: Seq<char>,
    arms: Seq<RegionId>,
    inputs: Seq<ValueId>,
    results: Seq<ValueId>,
    n: int,
    m: int,
)
    requires
        0 < n <= m,
        arms_failure(context, name, arms, inputs, results, n) is Some,
    ensures
        arms_failure(context, name, arms, inputs, results, m) == arms_failure(
            context,
            name,
            arms,
            inputs,
            results,
            n,
        ),
    decreases m - n,
{
    if n < m {
        arms_failure_stays(context, name, arms, inputs, results, n, m - 1);
    }
}

/// Why a gate's declared alignment does not hold.
pub open spec fn gamma_failure(
    context: ContextView,
    op: OpId,
    name: Seq<char>,
    arms: Seq<RegionId>,
    binding: Binding,
) -> Option<Seq<char>> {
    let inputs = sliced(context.ir.op(op)->0.operands, binding.operands);
    let results = sliced(context.ir.op(op)->0.results, binding.results);
    let forwarded = context.filtered(inputs, true).len();
    let joined = context.filtered(results, true).len();
    if arms.len() == 0 {
        Some(name + " needs at least one arm"@)
    } else {
        either(
            arms_failure(context, name, arms, inputs, results, arms.len() as int),
            if forwarded != joined {
                Some(
                    name + " forwards "@ + decimal(forwarded) + " states but joins "@ + decimal(
                        joined,
                    ) + ": each chain enters and leaves once"@,
                )
            } else {
                None
            },
        )
    }
}

fn verify_arm(
    context: &Context,
    name: &str,
    arm: RegionId,
    index: usize,
    inputs: &Vec<ValueId>,
    results: &Vec<ValueId>,
) -> (r: Result<(), Error>)
    requires
        context.inv(),
        context@.values_live(inputs@),
        context@.values_live(results@),
        context@.values_live(ids_of(context@.region_ports(arm))),
        context@.values_live(context@.region_results(arm)),
    ensures
        verdict(r, arm_failure(context@, name@, arm, index as nat, inputs@, results@)),
{
    let ports = port_ids(context, arm);
    let produced = context.region_results(arm);
    let who = cat3(name, " arm ", decimal_string(index as u64).as_str());
    if ports.len() != inputs.len() {
        return Err(
            invalid(
                cat5(
                    who.as_str(),
                    " takes ",
                    decimal_string(ports.len() as u64).as_str(),
                    " values but the op forwards ",
                    decimal_string(inputs.len() as u64).as_str(),
                ).as_str(),
            ),
        );
    }
    if produced.len() != results.len() {
        return Err(
            invalid(
                cat5(
                    who.as_str(),
                    " produces ",
                    decimal_string(produced.len() as u64).as_str(),
                    " values but the op produces ",
                    decimal_string(results.len() as u64).as_str(),
                ).as_str(),
            ),
        );
    }
    match check_types(context, who.as_str(), inputs, &ports, "port", "input") {
        Ok(_) => {},
        Err(e) => {
            return Err(e);
        },
    }
    check_types(context, who.as_str(), results, &produced, "value", "result")
}

/// Checks a gamma's declared alignment on every arm: ports typed like the
/// forwarded operands, results typed like the op's. An arm's port and result
/// lists are aligned whole, so each arm is read in full rather than through
/// the ranges arm 0 gave the binding.
pub fn verify_gamma(
    context: &Context,
    op: OpId,
    name: &str,
    arms: &Vec<RegionId>,
    binding: &Binding,
) -> (r: Result<(), Error>)
    requires
        context.inv(),
        context@.readable(op),
        arms@.len() > 0 ==> sliceable(context@.ir.op(op)->0.operands.len(), binding.operands)
            && sliceable(context@.ir.op(op)->0.results.len(), binding.results),
        context@.values_live(context@.ir.op(op)->0.operands),
        context@.values_live(context@.ir.op(op)->0.results),
        forall|i: int|
            #![trigger arms@[i]]
            0 <= i < arms@.len() ==> context@.values_live(ids_of(context@.region_ports(arms@[i])))
                && context@.values_live(context@.region_results(arms@[i])),
    ensures
        verdict(r, gamma_failure(context@, op, name@, arms@, *binding)),
{
    if arms.len() == 0 {
        return Err(invalid(cat2(name, " needs at least one arm").as_str()));
    }
    proof {
        slice_is_live(context@, context@.ir.op(op)->0.operands, binding.operands);
        slice_is_live(context@, context@.ir.op(op)->0.results, binding.results);
    }
    let inputs = slice(context.operands_of(op), &binding.operands);
    let results = slice(context.results_of(op), &binding.results);
    let mut i: usize = 0;
    while i < arms.len()
        invariant
            context.inv(),
            i <= arms.len(),
            arms.len() > 0,
            inputs@ == sliced(context@.ir.op(op)->0.operands, binding.operands),
            results@ == sliced(context@.ir.op(op)->0.results, binding.results),
            context@.values_live(inputs@),
            context@.values_live(results@),
            forall|i: int|
                #![trigger arms@[i]]
                0 <= i < arms@.len() ==> context@.values_live(
                    ids_of(context@.region_ports(arms@[i])),
                ) && context@.values_live(context@.region_results(arms@[i])),
            arms_failure(context@, name@, arms@, inputs@, results@, i as int) is None,
        decreases arms.len() - i,
    {
        assert(context@.values_live(context@.region_results(arms@[i as int])));
        match verify_arm(context, name, arms[i], i, &inputs, &results) {
            Ok(_) => {},
            Err(e) => {
                proof {
                    arms_failure_stays(
                        context@,
                        name@,
                        arms@,
                        inputs@,
                        results@,
                        i + 1,
                        arms@.len() as int,
                    );
                }
                return Err(e);
            },
        }
        i += 1;
    }
    let forwarded: usize = context.states_among(inputs.as_slice()).len();
    let joined: usize = context.states_among(results.as_slice()).len();
    if forwarded != joined {
        return Err(
            invalid(
                cat6(
                    name,
                    " forwards ",
                    decimal_string(forwarded as u64).as_str(),
                    " states but joins ",
                    decimal_string(joined as u64).as_str(),
                    ": each chain enters and leaves once",
                ).as_str(),
            ),
        );
    }
    Ok(())
}

/// Whether two integers agree in their low `width` bits.
pub open spec fn low_bits_agree(a: i64, b: i64, width: u32) -> bool {
    if width >= 64 {
        a == b
    } else if width == 0 {
        true
    } else {
        (a as u64) << ((64 - width) as u64) == (b as u64) << ((64 - width) as u64)
    }
}

impl ContextView {
    /// The integer a value is known to be, and its width: what the constant
    /// operation that defines it holds.
    pub open spec fn constant(self, value: ValueId) -> Option<(i64, u32)> {
        match self.ir.value(value) {
            Some(entry) => match entry.value.defining_op {
                Some(op) => if self.ir.op(op) is Some && self.is_op(
                    op,
                    "builtin"@,
                    "constant"@,
                ) {
                    Some(
                        (
                            match self.attr(op, "value"@) {
                                Some(AttrView::Int(n)) => n as i64,
                                _ => 0,
                            },
                            match self.types[entry.value.ty.0 as int] {
                                TypeView::Integer(width) => width,
                                _ => 64,
                            },
                        ),
                    )
                } else {
                    None
                },
                None => None,
            },
            None => None,
        }
    }

    /// Whether `found` and `declared` name the same value. A bound or a step is
    /// a value, not a spelling: a body that computes the counter's advance over
    /// its own `1` states the recurrence the op declares over an outer `1` just
    /// as well.
    pub open spec fn names_same(self, found: ValueId, declared: ValueId) -> bool {
        found == declared || match (self.constant(found), self.constant(declared)) {
            (Some(a), Some(b)) => a.1 == b.1 && low_bits_agree(a.0, b.0, a.1),
            _ => false,
        }
    }
}

/// The integer a value is known to be, and its width.
pub fn constant_of(context: &Context, value: ValueId) -> (r: Option<(i64, u32)>)
    requires
        context.inv(),
        context@.sound(),
        context@.ir.value(value) is Some,
    ensures
        r == context@.constant(value),
{
    assert(context@.value_sound(value));
    let held = context.get_value(value);
    let op = match held.defining_op {
        Some(op) => op,
        None => {
            return None;
        },
    };
    if !context.has_operation(op) {
        return None;
    }
    assert(context@.op_sound(op));
    if !context.get_op(op).is_name(context, "builtin", "constant") {
        return None;
    }
    let n: i64 = match context.op_attr(op, "value") {
        Some(AttributeValue::Int(n)) => n,
        _ => 0,
    };
    let width: u32 = match context.get_type_data(held.ty) {
        Type::Integer(t) => t.width,
        _ => 64,
    };
    Some((n, width))
}

fn names_same(context: &Context, found: ValueId, declared: ValueId) -> (r: bool)
    requires
        context.inv(),
        context@.sound(),
        context@.ir.value(found) is Some,
        context@.ir.value(declared) is Some,
    ensures
        r == context@.names_same(found, declared),
{
    if found == declared {
        return true;
    }
    match (constant_of(context, found), constant_of(context, declared)) {
        (Some(a), Some(b)) => {
            if a.1 != b.1 {
                false
            } else if a.1 >= 64 {
                a.0 == b.0
            } else if a.1 == 0 {
                true
            } else {
                let shift: u64 = (64 - a.1) as u64;
                #[verifier::truncate]
                let x: u64 = a.0 as u64;
                #[verifier::truncate]
                let y: u64 = b.0 as u64;
                x << shift == y << shift
            }
        },
        _ => false,
    }
}

impl ContextView {
    /// Whether `value` is `cmpi slt` of `counter` and `bound`.
    pub open spec fn compares(self, value: ValueId, counter: ValueId, bound: ValueId) -> bool {
        match self.ir.value(value)->0.value.defining_op {
            Some(op) => {
                let operands = self.ir.op(op)->0.operands;
                &&& self.is_op(op, "builtin"@, "cmpi"@)
                &&& self.attr(op, "predicate"@) == Some(AttrView::Predicate(Predicate::Slt))
                &&& operands.len() == 2
                &&& operands[0] == counter
                &&& self.names_same(operands[1], bound)
            },
            None => false,
        }
    }

    /// Whether `value` is `addi` of `counter` and `step`, either way round.
    pub open spec fn advances(self, value: ValueId, counter: ValueId, step: ValueId) -> bool {
        match self.ir.value(value)->0.value.defining_op {
            Some(op) => {
                let operands = self.ir.op(op)->0.operands;
                &&& self.is_op(op, "builtin"@, "addi"@)
                &&& operands.len() == 2
                &&& (operands[0] == counter && self.names_same(operands[1], step)) || (operands[1]
                    == counter && self.names_same(operands[0], step))
            },
            None => false,
        }
    }

    /// Whether the definition of `value` can be read: it is none, or a live
    /// operation over live values.
    pub open spec fn definition_live(self, value: ValueId) -> bool {
        &&& self.ir.value(value) is Some
        &&& match self.ir.value(value)->0.value.defining_op {
            Some(op) => self.ir.op(op) is Some && self.values_live(self.ir.op(op)->0.operands),
            None => true,
        }
    }
}

/// Why one of the first `n` exit values is not the port it leaves from.
pub open spec fn exits_failure(
    name: Seq<char>,
    exits: Seq<ValueId>,
    ports: Seq<ValueId>,
    n: int,
) -> Option<Seq<char>>
    decreases n,
{
    if n <= 0 {
        None
    } else {
        either(
            exits_failure(name, exits, ports, n - 1),
            if exits[n - 1] != ports[n - 1] {
                let index = decimal((n - 1) as nat);
                Some(name + " exit value "@ + index + " must be port "@ + index)
            } else {
                None
            },
        )
    }
}

proof fn exits_failure_stays(
    name: Seq<char>,
    exits: Seq<ValueId>,
    ports: Seq<ValueId>,
    n: int,
    m: int,
)
    requires
        0 < n <= m,
        exits_failure(name, exits, ports, n) is Some,
    ensures
        exits_failure(name, exits, ports, m) == exits_failure(name, exits, ports, n),
    decreases m - n,
{
    if n < m {
        exits_failure_stays(name, exits, ports, n, m - 1);
    }
}

/// Why a loop does not count as it declares.
pub open spec fn counted_failure(
    context: ContextView,
    name: Seq<char>,
    body: RegionId,
    binding: Binding,
    predicate: int,
    induction: nat,
    upper_bound: ValueId,
    step: ValueId,
) -> Option<Seq<char>> {
    let ports = ids_of(context.region_ports(body));
    let results = context.region_results(body);
    let counter = ports[binding.ports.start + induction];
    let exits = sliced(results, binding.exit);
    let carried = sliced(ports, binding.ports);
    if induction >= binding.ports.count() {
        Some(name + " carries no port "@ + decimal(induction) + " for its counter"@)
    } else if !context.compares(results[predicate], counter, upper_bound) {
        Some(name + " predicate must be cmpi slt of the counter and the upper bound"@)
    } else if !context.advances(results[binding.continue_.start + induction], counter, step) {
        Some(name + " must advance the counter by the step"@)
    } else {
        exits_failure(name, exits, carried, pairs(exits.len(), carried.len()))
    }
}

fn compares(context: &Context, value: ValueId, counter: ValueId, bound: ValueId) -> (r: bool)
    requires
        context.inv(),
        context@.sound(),
        context@.definition_live(value),
        context@.ir.value(bound) is Some,
    ensures
        r == context@.compares(value, counter, bound),
{
    let op = match context.get_value(value).defining_op {
        Some(op) => op,
        None => {
            return false;
        },
    };
    assert(context@.op_sound(op));
    if !context.get_op(op).is_name(context, "builtin", "cmpi") {
        return false;
    }
    let slt = match context.op_attr(op, "predicate") {
        Some(AttributeValue::Predicate(p)) => p == Predicate::Slt,
        _ => false,
    };
    let operands = context.operands_of(op);
    if operands.len() != 2 {
        return false;
    }
    assert(context@.ir.value(operands@[1]) is Some);
    slt && operands[0] == counter && names_same(context, operands[1], bound)
}

fn advances(context: &Context, value: ValueId, counter: ValueId, step: ValueId) -> (r: bool)
    requires
        context.inv(),
        context@.sound(),
        context@.definition_live(value),
        context@.ir.value(step) is Some,
    ensures
        r == context@.advances(value, counter, step),
{
    let op = match context.get_value(value).defining_op {
        Some(op) => op,
        None => {
            return false;
        },
    };
    assert(context@.op_sound(op));
    if !context.get_op(op).is_name(context, "builtin", "addi") {
        return false;
    }
    let operands = context.operands_of(op);
    if operands.len() != 2 {
        return false;
    }
    assert(context@.ir.value(operands@[0]) is Some);
    assert(context@.ir.value(operands@[1]) is Some);
    (operands[0] == counter && names_same(context, operands[1], step)) || (operands[1] == counter
        && names_same(context, operands[0], step))
}

/// Checks the shape of a loop that counts: the predicate is
/// `cmpi slt(counter, ub)`, the counter continues as `addi(counter, step)`, and
/// every port leaves the loop unchanged.
pub fn verify_counted(
    context: &Context,
    name: &str,
    body: RegionId,
    binding: &Binding,
    predicate: usize,
    induction: usize,
    upper_bound: ValueId,
    step: ValueId,
) -> (r: Result<(), Error>)
    requires
        context.inv(),
        context@.sound(),
        context@.ir.value(upper_bound) is Some,
        context@.ir.value(step) is Some,
        induction < binding.ports.count() ==> sliceable(
            context@.region_results(body).len(),
            binding.exit,
        ),
        induction < binding.ports.count() ==> {
            let results = context@.region_results(body);
            &&& binding.ports.start + induction < context@.region_ports(body).len()
            &&& predicate < results.len()
            &&& binding.continue_.start + induction < results.len()
            &&& context@.definition_live(results[predicate as int])
            &&& context@.definition_live(results[binding.continue_.start + induction])
        },
    ensures
        verdict(
            r,
            counted_failure(
                context@,
                name@,
                body,
                *binding,
                predicate as int,
                induction as nat,
                upper_bound,
                step,
            ),
        ),
{
    if induction >= binding.ports.len() {
        return Err(
            invalid(
                cat4(
                    name,
                    " carries no port ",
                    decimal_string(induction as u64).as_str(),
                    " for its counter",
                ).as_str(),
            ),
        );
    }
    let ports = port_ids(context, body);
    let results = context.region_results(body);
    assert(results.len() == results@.len());
    let counter = ports[binding.ports.start + induction];
    let ghost failure = counted_failure(
        context@,
        name@,
        body,
        *binding,
        predicate as int,
        induction as nat,
        upper_bound,
        step,
    );
    if !compares(context, results[predicate], counter, upper_bound) {
        return Err(
            invalid(
                cat2(
                    name,
                    " predicate must be cmpi slt of the counter and the upper bound",
                ).as_str(),
            ),
        );
    }
    if !advances(context, results[binding.continue_.start + induction], counter, step) {
        return Err(invalid(cat2(name, " must advance the counter by the step").as_str()));
    }
    let exits = slice(&results, &binding.exit);
    let carried = slice(&ports, &binding.ports);
    let n: usize = if exits.len() < carried.len() {
        exits.len()
    } else {
        carried.len()
    };
    let mut i: usize = 0;
    while i < n
        invariant
            i <= n,
            n <= exits.len(),
            n <= carried.len(),
            n == pairs(exits@.len(), carried@.len()),
            failure == exits_failure(name@, exits@, carried@, n as int),
            failure == counted_failure(
                context@,
                name@,
                body,
                *binding,
                predicate as int,
                induction as nat,
                upper_bound,
                step,
            ),
            exits_failure(name@, exits@, carried@, i as int) is None,
        decreases n - i,
    {
        if exits[i] != carried[i] {
            proof {
                exits_failure_stays(name@, exits@, carried@, i + 1, n as int);
            }
            let index = decimal_string(i as u64);
            return Err(
                invalid(
                    cat5(
                        name,
                        " exit value ",
                        index.as_str(),
                        " must be port ",
                        index.as_str(),
                    ).as_str(),
                ),
            );
        }
        i += 1;
    }
    Ok(())
}

/// `%port = %init, ..`, as many as both lists have.
pub open spec fn pair_list(ports: Seq<ValueId>, inits: Seq<ValueId>, n: int) -> Seq<char>
    decreases n,
{
    if n <= 0 {
        Seq::empty()
    } else {
        (if n == 1 {
            Seq::<char>::empty()
        } else {
            pair_list(ports, inits, n - 1) + ", "@
        }) + (value_name(ports[n - 1]) + " = "@ + value_name(inits[n - 1]))
    }
}

/// ` (%port = %init, ..)`.
pub open spec fn port_bindings(ports: Seq<ValueId>, inits: Seq<ValueId>) -> Seq<char> {
    " ("@ + pair_list(ports, inits, pairs(ports.len(), inits.len())) + ")"@
}

/// Prints `(%port = %init, ..)`, or nothing when the op carries nothing.
pub fn print_port_bindings(fmt: &mut IRFormatter, ports: &[ValueId], inits: &[ValueId])
    ensures
        final(fmt)@ == if ports@.len() == 0 {
            old(fmt)@
        } else {
            old(fmt)@.written(port_bindings(ports@, inits@))
        },
{
    if ports.len() == 0 {
        return;
    }
    let n: usize = if ports.len() < inits.len() {
        ports.len()
    } else {
        inits.len()
    };
    let mut s = " (".to_owned();
    let ghost lead = s@;
    assert(s@ =~= lead + pair_list(ports@, inits@, 0));
    let mut i: usize = 0;
    while i < n
        invariant
            i <= n,
            n <= ports.len(),
            n <= inits.len(),
            s@ =~= lead + pair_list(ports@, inits@, i as int),
        decreases n - i,
    {
        if i > 0 {
            s.append(", ");
        }
        s.append(cat3(
            value_text(ports[i]).as_str(),
            " = ",
            value_text(inits[i]).as_str(),
        ).as_str());
        i += 1;
    }
    s.append(")");
    fmt.write(s.as_str());
}

/// Puts a theta body's results in binding order. The text lists the values
/// the body names, then its states; the binding wants the predicate, then
/// what the next iteration carries, then what the loop leaves, each of those
/// values then states as the ports are.
pub open spec fn theta_order(
    values: Seq<ValueId>,
    states: Seq<ValueId>,
    value_ports: int,
    state_ports: int,
) -> Seq<ValueId> {
    values.take(1) + values.subrange(1, 1 + value_ports) + states.take(state_ports) + values.skip(
        1 + value_ports,
    ) + states.skip(state_ports)
}

impl ContextView {
    /// The context with a theta body's results in binding order, where their
    /// number says which is which.
    pub open spec fn theta_ordered(self, body: RegionId) -> ContextView {
        let results = self.node_results(body);
        let ports = ids_of(self.node_ports(body));
        let values = self.filtered(results, false);
        let states = self.filtered(results, true);
        let value_ports = self.filtered(ports, false).len();
        let state_ports = self.filtered(ports, true).len();
        if values.len() == 1 + 2 * value_ports && states.len() == 2 * state_ports {
            self.with_nodes(
                body,
                self.node_ports(body),
                self.node_ops(body),
                theta_order(values, states, value_ports as int, state_ports as int),
            ).reported_region(body)
        } else {
            self
        }
    }
}

/// Puts a theta body's results in binding order, where their number says which
/// is which.
pub fn order_theta_results(context: &mut Context, body: RegionId)
    requires
        old(context).inv(),
        old(context)@.is_nodes(body),
        old(context)@.node_results(body).len() <= MAX_IDS,
        old(context)@.node_ports(body).len() <= MAX_IDS,
    ensures
        final(context).inv(),
        final(context)@ == old(context)@.theta_ordered(body),
{
    let results = context.region_results(body);
    let ports = port_ids(context, body);
    let values = context.values_among(results.as_slice()).to_vec();
    let states = context.states_among(results.as_slice()).to_vec();
    let value_ports: usize = context.values_among(ports.as_slice()).len();
    let state_ports: usize = context.states_among(ports.as_slice()).len();
    if value_ports >= values.len() || state_ports > states.len() || values.len() - value_ports != 1
        + value_ports || states.len() - state_ports != state_ports {
        return;
    }
    let mut ordered: Vec<ValueId> = Vec::new();
    push_all(&mut ordered, &values, 0, 1);
    push_all(&mut ordered, &values, 1, 1 + value_ports);
    push_all(&mut ordered, &states, 0, state_ports);
    push_all(&mut ordered, &values, 1 + value_ports, values.len());
    push_all(&mut ordered, &states, state_ports, states.len());
    assert(ordered@ =~= theta_order(values@, states@, value_ports as int, state_ports as int));
    context.set_region_results(body, ordered);
}

fn push_all(list: &mut Vec<ValueId>, from: &Vec<ValueId>, start: usize, end: usize)
    requires
        start <= end <= from.len(),
    ensures
        final(list)@ == old(list)@ + from@.subrange(start as int, end as int),
{
    let ghost before = list@;
    let mut i: usize = start;
    while i < end
        invariant
            start <= i <= end <= from.len(),
            list@ =~= before + from@.subrange(start as int, i as int),
        decreases end - i,
    {
        list.push(from[i]);
        i += 1;
    }
}

/// Putting results in binding order only moves them.
pub proof fn ordering_keeps_the_results(
    values: Seq<ValueId>,
    states: Seq<ValueId>,
    value_ports: int,
    state_ports: int,
    v: ValueId,
)
    requires
        0 <= value_ports,
        0 <= state_ports,
        values.len() == 1 + 2 * value_ports,
        states.len() == 2 * state_ports,
    ensures
        theta_order(values, states, value_ports, state_ports).len() == values.len() + states.len(),
        theta_order(values, states, value_ports, state_ports).contains(v) <==> values.contains(v)
            || states.contains(v),
{
    let t = theta_order(values, states, value_ports, state_ports);
    if values.contains(v) {
        let k = choose|k: int| 0 <= k < values.len() && values[k] == v;
        if k < 1 + value_ports {
            assert(t[k] == v);
        } else {
            assert(t[k + state_ports] == v);
        }
    }
    if states.contains(v) {
        let k = choose|k: int| 0 <= k < states.len() && states[k] == v;
        if k < state_ports {
            assert(t[1 + value_ports + k] == v);
        } else {
            assert(t[1 + 2 * value_ports + k] == v);
        }
    }
    if t.contains(v) {
        let k = choose|k: int| 0 <= k < t.len() && t[k] == v;
        if k < 1 + value_ports {
            assert(values[k] == v);
        } else if k < 1 + value_ports + state_ports {
            assert(states[k - 1 - value_ports] == v);
        } else if k < 1 + 2 * value_ports + state_ports {
            assert(values[k - state_ports] == v);
        } else {
            assert(states[k - 1 - 2 * value_ports] == v);
        }
    }
}

} // verus!

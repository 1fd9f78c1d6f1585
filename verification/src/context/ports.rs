//! Edits of what a declared loop or gate carries: one more value in every
//! aligned list, and one memory state less.
use vstd::prelude::*;
use crate::binding::declared;
use crate::binding::ids_of;
use crate::binding::port_ids;
use crate::binding::slice;
use crate::binding::state_slots;
use crate::binding::StateSlot;
use crate::context::edits::port_placed;
use crate::context::regions::last_segment_grown;
use crate::context::regions::segment_grown;
use crate::context::regions::segment_shrunk;
use crate::context::Context;
use crate::context::ContextView;
use crate::ids::state_type;
use crate::ids::OpId;
use crate::ids::RegionId;
use crate::ids::TypeId;
use crate::ids::ValueId;
use crate::interfaces::Binding;
use crate::interfaces::IndexRange;
use crate::ir::OpView;
use crate::ir::Value;
use crate::lists::MAX_IDS;
use crate::tree::all_trees;

verus! {

impl ContextView {
    /// Where one more value of type `ty` joins the entries `range` of `list`:
    /// last where it is a memory state, else behind the values, which come ahead
    /// of the states.
    pub open spec fn joining(self, list: Seq<ValueId>, range: IndexRange, ty: TypeId) -> int {
        if ty == state_type() {
            range.end as int
        } else {
            range.start + self.filtered(
                list.subrange(range.start as int, range.end as int),
                false,
            ).len()
        }
    }

    /// With `value` as operand `index` of `op`, in the group that ends at
    /// `group_end`.
    pub open spec fn with_operand_at(
        self,
        op: OpId,
        index: int,
        value: ValueId,
        group_end: nat,
    ) -> Self {
        match self.ir.op(op) {
            Some(held) => self.with_operand_groups(
                op,
                held.operands.insert(index, value),
                segment_grown(held.attributes, group_end),
            ),
            None => self,
        }
    }

    /// With a fresh port of type `ty` at `index` of the unordered `region`.
    pub open spec fn with_fresh_port(self, region: RegionId, index: int, ty: TypeId) -> Self {
        let port = Value {
            id: ValueId(self.ir.values.now.len() as u32),
            ty,
            defining_op: None,
        };
        let minted = self.with_value(ty, None);
        let held = minted.with_nodes(
            region,
            minted.node_ports(region).insert(index, port),
            minted.node_ops(region),
            minted.node_results(region),
        );
        held.with_ir(port_placed(held.ir, port.id, Some(region))).reported_region(region)
    }

    /// With `value` as result `index` of the unordered `region`.
    pub open spec fn with_region_result(self, region: RegionId, index: int, value: ValueId) -> Self {
        self.with_nodes(
            region,
            self.node_ports(region),
            self.node_ops(region),
            self.node_results(region).insert(index, value),
        ).reported_region(region)
    }

    /// With `port` appended to the operands of the first `n` of `exits`.
    pub open spec fn fed(self, exits: Seq<OpId>, port: ValueId, n: int) -> Self
        decreases n,
    {
        if n <= 0 {
            self
        } else {
            let before = self.fed(exits, port, n - 1);
            match before.ir.op(exits[n - 1]) {
                Some(held) => before.with_operand_groups(
                    exits[n - 1],
                    held.operands.push(port),
                    last_segment_grown(held.attributes),
                ),
                None => before,
            }
        }
    }

    /// With a fresh result of type `ty` joining the results of `op`.
    pub open spec fn with_carried_result(self, op: OpId, ty: TypeId) -> Self {
        let id = ValueId(self.ir.values.now.len() as u32);
        let minted = self.with_value(ty, Some(op));
        let results = minted.ir.op(op)->0.results;
        let all = IndexRange { start: 0, end: results.len() as usize };
        minted.with_results(op, results.insert(minted.joining(results, all, ty), id), id)
    }

    /// Where a loop's lists are joined by one more value: the operands, the ports
    /// of its body, and what its body names for the next iteration and for the
    /// exit.
    pub open spec fn loop_grown(
        self,
        op: OpId,
        ty: TypeId,
        init: ValueId,
        carried: Option<ValueId>,
        exits: Seq<OpId>,
    ) -> Self {
        let b = self.binding(op);
        let body = self.ir.op(op)->0.regions[0];
        let results = self.region_results(body);
        let entered = self.with_operand_at(
            op,
            self.joining(self.ir.op(op)->0.operands, b.operands, ty),
            init,
            b.operands.end as nat,
        );
        let port = ValueId(self.ir.values.now.len() as u32);
        let ported = entered.with_fresh_port(
            body,
            self.joining(ids_of(self.region_ports(body)), b.ports, ty),
            ty,
        );
        let exited = ported.with_region_result(body, self.joining(results, b.exit, ty), port);
        let latched = exited.with_region_result(
            body,
            self.joining(results, b.continue_, ty),
            match carried {
                Some(value) => value,
                None => port,
            },
        );
        latched.fed(exits, port, exits.len() as int).with_carried_result(op, ty)
    }
}

impl ContextView {
    /// One arm of a gate joined by one more value: a port where one is forwarded,
    /// and what the arm produces for it.
    pub open spec fn arm_grown(
        self,
        arm: RegionId,
        ty: TypeId,
        b: Binding,
        forwards: bool,
        produced: ValueId,
        exits: Seq<OpId>,
    ) -> Self {
        let port = ValueId(self.ir.values.now.len() as u32);
        let ported = if forwards {
            self.with_fresh_port(
                arm,
                self.joining(ids_of(self.region_ports(arm)), b.ports, ty),
                ty,
            )
        } else {
            self
        };
        let yielded = ported.with_region_result(
            arm,
            ported.joining(ported.region_results(arm), b.exit, ty),
            produced,
        );
        if forwards {
            yielded.fed(exits, port, exits.len() as int)
        } else {
            yielded
        }
    }

    /// The first `n` arms of a gate joined by one more value.
    pub open spec fn arms_grown(
        self,
        arms: Seq<RegionId>,
        ty: TypeId,
        b: Binding,
        forwards: bool,
        produced: Seq<ValueId>,
        exits: Seq<Seq<OpId>>,
        n: int,
    ) -> Self
        decreases n,
    {
        if n <= 0 {
            self
        } else {
            self.arms_grown(arms, ty, b, forwards, produced, exits, n - 1).arm_grown(
                arms[n - 1],
                ty,
                b,
                forwards,
                produced[n - 1],
                exits[n - 1],
            )
        }
    }

    /// A gate joined by one more value: an operand where one is forwarded, every
    /// arm, and a result.
    pub open spec fn gate_grown(
        self,
        op: OpId,
        ty: TypeId,
        init: Option<ValueId>,
        produced: Seq<ValueId>,
        exits: Seq<Seq<OpId>>,
    ) -> Self {
        let b = self.binding(op);
        let arms = self.ir.op(op)->0.regions;
        let entered = match init {
            Some(init) => self.with_operand_at(
                op,
                self.joining(self.ir.op(op)->0.operands, b.operands, ty),
                init,
                b.operands.end as nat,
            ),
            None => self,
        };
        entered.arms_grown(
            arms,
            ty,
            b,
            init is Some,
            produced,
            exits,
            arms.len() as int,
        ).with_carried_result(op, ty)
    }

    /// Whether a region has the lists a binding aligns.
    pub open spec fn region_growable(self, region: RegionId, b: Binding) -> bool {
        &&& self.is_nodes(region)
        &&& self.node_ports(region).len() <= MAX_IDS
        &&& self.node_results(region).len() <= MAX_IDS
        &&& b.ports.start <= b.ports.end <= self.node_ports(region).len()
        &&& b.exit.start <= b.exit.end <= self.node_results(region).len()
        &&& b.continue_.start <= b.continue_.end <= self.node_results(region).len()
    }

    /// Whether a declared loop or gate can be joined by one more value.
    pub open spec fn growable(self, op: OpId) -> bool {
        let o = self.ir.op(op)->0;
        &&& self.carrier_wf(op)
        &&& self.carrier(op) is Some
        &&& o.operands.len() <= MAX_IDS
        &&& o.regions.no_duplicates()
        &&& self.ir.values.now.len() + o.regions.len() + 1 <= u32::MAX
        &&& forall|i: int|
            0 <= i < o.regions.len() ==> self.region_growable(
                #[trigger] o.regions[i],
                self.binding(op),
            )
    }
}

/// What the exits that leave each region are.
pub open spec fn exit_lists(exits: Seq<Vec<OpId>>) -> Seq<Seq<OpId>> {
    exits.map_values(|list: Vec<OpId>| list@)
}

impl Context {
    /// Where one more value of type `ty` joins the entries `range` of `list`.
    pub(crate) fn join_at(&self, list: &Vec<ValueId>, range: &IndexRange, ty: TypeId) -> (i: usize)
        requires
            self.inv(),
            range.start <= range.end <= list.len() <= MAX_IDS,
        ensures
            i == self@.joining(list@, *range, ty),
            range.start <= i <= range.end,
    {
        if ty == TypeId::state() {
            return range.end;
        }
        let part = slice(list, range);
        assert(part@ =~= list@.subrange(range.start as int, range.end as int));
        let values = self.values_among(part.as_slice());
        proof {
            filtered_is_no_longer(self@, part@, false);
        }
        range.start + values.len()
    }

    pub(crate) fn mint_port(&mut self, region: RegionId, index: usize, ty: TypeId) -> (id: ValueId)
        requires
            old(self).inv(),
            old(self)@.is_nodes(region),
            index <= old(self)@.node_ports(region).len(),
            old(self)@.ir.values.now.len() < u32::MAX,
        ensures
            final(self).inv(),
            final(self)@ == old(self)@.with_fresh_port(region, index as int, ty),
            id.0 == old(self)@.ir.values.now.len(),
    {
        let port = self.create_value(ty, None);
        self.insert_region_port(region, index, port);
        port.id
    }

    pub(crate) fn feed(&mut self, exits: &Vec<OpId>, port: ValueId)
        requires
            old(self).inv(),
            port.0 < u32::MAX,
        ensures
            final(self).inv(),
            final(self)@ == old(self)@.fed(exits@, port, exits@.len() as int),
    {
        let ghost before = self@;
        let mut i: usize = 0;
        while i < exits.len()
            invariant
                i <= exits.len(),
                self.inv(),
                port.0 < u32::MAX,
                self@ == before.fed(exits@, port, i as int),
            decreases exits.len() - i,
        {
            self.append_operand(exits[i], port);
            i += 1;
        }
    }
}

/// Feeding exits leaves regions, values and results as they were.
pub proof fn feeding_keeps(context: ContextView, exits: Seq<OpId>, port: ValueId, n: int)
    ensures
        context.fed(exits, port, n).ir.regions == context.ir.regions,
        context.fed(exits, port, n).ir.values == context.ir.values,
        forall|op: OpId|
            (#[trigger] context.fed(exits, port, n).ir.op(op)) is Some
                <==> context.ir.op(op) is Some,
        forall|op: OpId|
            context.ir.op(op) is Some ==> (#[trigger] context.fed(
                exits,
                port,
                n,
            ).ir.op(op))->0.results == context.ir.op(op)->0.results,
    decreases n,
{
    if n > 0 {
        feeding_keeps(context, exits, port, n - 1);
        let before = context.fed(exits, port, n - 1);
        let after = context.fed(exits, port, n);
        let exit = exits[n - 1];
        assert forall|op: OpId| true implies ((#[trigger] after.ir.op(op)) is Some
            <==> context.ir.op(op) is Some) && (context.ir.op(op) is Some ==> after.ir.op(
            op,
        )->0.results == context.ir.op(op)->0.results) by {
            assert(before.ir.op(op) is Some <==> context.ir.op(op) is Some);
            if before.ir.op(exit) is Some {
                let moved = before.ir.put_operands(exit, before.ir.op(exit)->0.operands.push(port));
                assert(moved.op(exit) is Some);
                if op != exit {
                    assert(after.ir.op(op) == before.ir.op(op));
                }
            }
        }
    }
}

impl Context {
    pub(crate) fn join_result(&mut self, op: OpId, ty: TypeId) -> (id: ValueId)
        requires
            old(self).inv(),
            old(self)@.ir.op(op) is Some,
            old(self)@.ir.op(op)->0.results.len() <= MAX_IDS,
            old(self)@.ir.values.now.len() < u32::MAX,
        ensures
            final(self).inv(),
            final(self)@ == old(self)@.with_carried_result(op, ty),
            id.0 == old(self)@.ir.values.now.len(),
            id.0 + 1 == final(self)@.ir.values.now.len(),
    {
        let value = self.create_value(ty, Some(op));
        let results = crate::ir::copy_list(self.results_of(op));
        let all = IndexRange::new(0, results.len());
        let index: usize = self.join_at(&results, &all, ty);
        self.insert_result_at(op, index, value.id);
        value.id
    }

    fn grow_loop(
        &mut self,
        op: OpId,
        ty: TypeId,
        init: ValueId,
        carried: Option<ValueId>,
        exits: &Vec<OpId>,
    ) -> (id: ValueId)
        requires
            old(self).inv(),
            old(self)@.growable(op),
            old(self)@.is_theta(op),
            old(self)@.ir.op(op)->0.results.len() <= MAX_IDS,
            init.0 < u32::MAX,
        ensures
            final(self).inv(),
            final(self)@ == old(self)@.loop_grown(op, ty, init, carried, exits@),
            id.0 + 1 == final(self)@.ir.values.now.len(),
    {
        let ghost before = self@;
        let binding = declared(self, op).unwrap();
        let body = self.regions_of(op)[0];
        assert(before.region_growable(before.ir.op(op)->0.regions[0], before.binding(op)));
        let operands = crate::ir::copy_list(self.operands_of(op));
        let ports = port_ids(self, body);
        let results = self.region_results(body);
        let operand_at: usize = self.join_at(&operands, &binding.operands, ty);
        let port_at: usize = self.join_at(&ports, &binding.ports, ty);
        let exit_at: usize = self.join_at(&results, &binding.exit, ty);
        let continue_at: usize = self.join_at(&results, &binding.continue_, ty);
        self.insert_operand_at(op, operand_at, init, binding.operands.end);
        let port = self.mint_port(body, port_at, ty);
        self.insert_region_result(body, exit_at, port);
        let value = match carried {
            Some(value) => value,
            None => port,
        };
        self.insert_region_result(body, continue_at, value);
        let ghost latched = self@;
        self.feed(exits, port);
        proof {
            feeding_keeps(latched, exits@, port, exits@.len() as int);
        }
        self.join_result(op, ty)
    }

    fn grow_arm(
        &mut self,
        arm: RegionId,
        ty: TypeId,
        binding: &Binding,
        forwards: bool,
        produced: ValueId,
        exits: &Vec<OpId>,
    )
        requires
            old(self).inv(),
            old(self)@.region_growable(arm, *binding),
            old(self)@.ir.values.now.len() < u32::MAX,
        ensures
            final(self).inv(),
            final(self)@ == old(self)@.arm_grown(arm, ty, *binding, forwards, produced, exits@),
    {
        if forwards {
            let ports = port_ids(self, arm);
            let at: usize = self.join_at(&ports, &binding.ports, ty);
            let port = self.mint_port(arm, at, ty);
            let results = self.region_results(arm);
            let at: usize = self.join_at(&results, &binding.exit, ty);
            self.insert_region_result(arm, at, produced);
            self.feed(exits, port);
        } else {
            let results = self.region_results(arm);
            let at: usize = self.join_at(&results, &binding.exit, ty);
            self.insert_region_result(arm, at, produced);
        }
    }

    /// Grows `op` by one carried port of type `ty`. A port that carries a value in
    /// takes `init` as one more operand and gives the op's regions one more port; a
    /// gate that carries nothing in takes none. `latched` is what each region names
    /// for the port. Every non-local exit that leaves `op` gains the port of the
    /// region it sits under, where `targets` says what each exit leaves. The op
    /// gains one result, the value minted last, which is handed back.
    pub fn grow_port(
        &mut self,
        op: OpId,
        ty: TypeId,
        init: Option<ValueId>,
        latched: &Vec<Option<ValueId>>,
        targets: &Vec<(OpId, OpId)>,
    ) -> (id: ValueId)
        requires
            old(self).inv(),
            old(self)@.sound(),
            old(self)@.growable(op),
            old(self)@.ir.op(op)->0.results.len() <= MAX_IDS,
            forall|i: int|
                0 <= i < old(self)@.ir.op(op)->0.regions.len() ==> all_trees(
                    old(self)@.kids(),
                    old(self)@.region_ops(#[trigger] old(self)@.ir.op(op)->0.regions[i]),
                ),
            latched@.len() == old(self)@.ir.op(op)->0.regions.len(),
            init matches Some(v) ==> v.0 < u32::MAX,
            old(self)@.is_theta(op) ==> init is Some,
            !old(self)@.is_theta(op) ==> forall|i: int|
                0 <= i < latched@.len() ==> (#[trigger] latched@[i]) is Some,
        ensures
            final(self).inv(),
            final(self)@ == if old(self)@.is_theta(op) {
                old(self)@.loop_grown(
                    op,
                    ty,
                    init->0,
                    latched@[0],
                    old(self)@.port_exits(op, targets@)[0],
                )
            } else {
                old(self)@.gate_grown(
                    op,
                    ty,
                    init,
                    latched@.map_values(|v: Option<ValueId>| v->0),
                    old(self)@.port_exits(op, targets@),
                )
            },
            id.0 + 1 == final(self)@.ir.values.now.len(),
    {
        let exits = self.port_exits(op, targets);
        assert(exit_lists(exits@)[0] == exits@[0]@);
        self.grow_declared_port(op, ty, init, latched, &exits)
    }

    /// One more carried value for a declared loop or gate, in every aligned list:
    /// after the values it carries and ahead of its states, or last where it is a
    /// state itself. A loop takes `init` in and hands on `latched[0]`, its own
    /// port where that is none; a gate forwards `init` where there is one and has
    /// each arm produce what `latched` says. Every non-local exit of `exits`
    /// that leaves through a region gains the port of that region. Hands back
    /// the result the value leaves as.
    pub fn grow_declared_port(
        &mut self,
        op: OpId,
        ty: TypeId,
        init: Option<ValueId>,
        latched: &Vec<Option<ValueId>>,
        exits: &Vec<Vec<OpId>>,
    ) -> (id: ValueId)
        requires
            old(self).inv(),
            old(self)@.growable(op),
            old(self)@.ir.op(op)->0.results.len() <= MAX_IDS,
            latched@.len() == old(self)@.ir.op(op)->0.regions.len(),
            exits@.len() == latched@.len(),
            init matches Some(v) ==> v.0 < u32::MAX,
            old(self)@.is_theta(op) ==> init is Some,
            !old(self)@.is_theta(op) ==> forall|i: int|
                0 <= i < latched@.len() ==> (#[trigger] latched@[i]) is Some,
        ensures
            final(self).inv(),
            final(self)@ == if old(self)@.is_theta(op) {
                old(self)@.loop_grown(op, ty, init->0, latched@[0], exits@[0]@)
            } else {
                old(self)@.gate_grown(
                    op,
                    ty,
                    init,
                    latched@.map_values(|v: Option<ValueId>| v->0),
                    exit_lists(exits@),
                )
            },
            id.0 + 1 == final(self)@.ir.values.now.len(),
    {
        let theta = match crate::binding::carrier(self, op) {
            Some(crate::binding::Carrier::Switch) => false,
            _ => true,
        };
        if theta {
            return self.grow_loop(op, ty, init.unwrap(), latched[0], &exits[0]);
        }
        let ghost before = self@;
        let ghost produced = latched@.map_values(|v: Option<ValueId>| v->0);
        let ghost lists = exit_lists(exits@);
        let binding = declared(self, op).unwrap();
        let arms = crate::ir::copy_list(self.regions_of(op));
        if let Some(value) = init {
            let operands = crate::ir::copy_list(self.operands_of(op));
            let at: usize = self.join_at(&operands, &binding.operands, ty);
            self.insert_operand_at(op, at, value, binding.operands.end);
        }
        let ghost entered = self@;
        let ghost results = before.ir.op(op)->0.results;
        let mut i: usize = 0;
        assert forall|k: int| 0 <= k < arms@.len() implies entered.region_growable(
            #[trigger] arms@[k],
            binding,
        ) by {
            assert(before.region_growable(before.ir.op(op)->0.regions[k], binding));
        }
        while i < arms.len()
            invariant
                i <= arms.len(),
                self.inv(),
                arms@.no_duplicates(),
                latched@.len() == arms@.len(),
                exits@.len() == arms@.len(),
                produced == latched@.map_values(|v: Option<ValueId>| v->0),
                lists == exit_lists(exits@),
                forall|k: int| 0 <= k < latched@.len() ==> (#[trigger] latched@[k]) is Some,
                self@.ir.values.now.len() + (arms@.len() - i) + 1 <= u32::MAX,
                self@.ir.op(op) is Some,
                self@.ir.op(op)->0.results == results,
                self@ == entered.arms_grown(
                    arms@,
                    ty,
                    binding,
                    init is Some,
                    produced,
                    lists,
                    i as int,
                ),
                forall|k: int|
                    i <= k < arms@.len() ==> self@.region_growable(#[trigger] arms@[k], binding),
            decreases arms.len() - i,
        {
            let ghost so_far = self@;
            let value = latched[i].unwrap();
            assert(produced[i as int] == value);
            assert(lists[i as int] == exits@[i as int]@);
            self.grow_arm(arms[i], ty, &binding, init.is_some(), value, &exits[i]);
            proof {
                let port = ValueId(so_far.ir.values.now.len() as u32);
                let ported = if init is Some {
                    so_far.with_fresh_port(
                        arms@[i as int],
                        so_far.joining(ids_of(so_far.region_ports(arms@[i as int])), binding.ports, ty),
                        ty,
                    )
                } else {
                    so_far
                };
                let yielded = ported.with_region_result(
                    arms@[i as int],
                    ported.joining(ported.region_results(arms@[i as int]), binding.exit, ty),
                    value,
                );
                feeding_keeps(yielded, exits@[i as int]@, port, exits@[i as int]@.len() as int);
                assert forall|k: int| i < k < arms@.len() implies self@.region_growable(
                    #[trigger] arms@[k],
                    binding,
                ) by {
                    assert(arms@[k] != arms@[i as int]);
                    assert(so_far.region_growable(arms@[k], binding));
                    assert(self@.ir.region(arms@[k]) == so_far.ir.region(arms@[k]));
                }
            }
            i += 1;
        }
        self.join_result(op, ty)
    }
}

impl ContextView {
    /// The results of a region without those at a slot's positions.
    pub open spec fn results_without(results: Seq<ValueId>, slot: StateSlot) -> Seq<ValueId> {
        match slot.continue_ {
            Some(at) => if at > slot.exit {
                results.remove(at as int).remove(slot.exit as int)
            } else {
                results.remove(slot.exit as int).remove(at as int)
            },
            None => results.remove(slot.exit as int),
        }
    }

    /// A region without one state a slot names.
    pub open spec fn region_without_state(self, region: RegionId, slot: StateSlot) -> Self {
        let named = self.with_nodes(
            region,
            self.node_ports(region),
            self.node_ops(region),
            ContextView::results_without(self.node_results(region), slot),
        ).reported_region(region);
        named.with_nodes(
            region,
            named.node_ports(region).remove(slot.port as int),
            named.node_ops(region),
            named.node_results(region),
        ).reported_region(region)
    }

    /// The first `n` regions without one state a slot names.
    pub open spec fn regions_without_state(
        self,
        regions: Seq<RegionId>,
        slot: StateSlot,
        n: int,
    ) -> Self
        decreases n,
    {
        if n <= 0 {
            self
        } else {
            self.regions_without_state(regions, slot, n - 1).region_without_state(
                regions[n - 1],
                slot,
            )
        }
    }

    /// Whether a region holds what a slot names.
    pub open spec fn holds_slot(self, region: RegionId, slot: StateSlot) -> bool {
        &&& self.is_nodes(region)
        &&& slot.port < self.node_ports(region).len()
        &&& slot.exit < self.node_results(region).len()
        &&& slot.continue_ matches Some(at) ==> at < self.node_results(region).len() && at
            != slot.exit
    }

    /// A loop or a gate without one state it carries.
    pub open spec fn without_state(self, op: OpId, slot: StateSlot) -> Self {
        let o = self.ir.op(op)->0;
        let dropped = self.regions_without_state(o.regions, slot, o.regions.len() as int);
        let entered = dropped.with_operand_groups(
            op,
            o.operands.remove(slot.operand as int),
            segment_shrunk(o.attributes, slot.operand as nat),
        );
        let held = entered.ir.op(op)->0;
        entered.with_ir(
            entered.ir.put_op(
                op,
                OpView { results: held.results.remove(slot.result as int), ..held },
            ),
        ).reported_op(op)
    }
}

proof fn dropping_keeps(context: ContextView, regions: Seq<RegionId>, slot: StateSlot, n: int, other: RegionId)
    requires
        0 <= n <= regions.len(),
        regions.no_duplicates(),
        forall|k: int| 0 <= k < n ==> regions[k] != other,
        forall|k: int| 0 <= k < n ==> context.ir.region(#[trigger] regions[k]) is Some,
    ensures
        context.regions_without_state(regions, slot, n).ir.region(other) == context.ir.region(other),
        context.regions_without_state(regions, slot, n).ir.ops == context.ir.ops,
    decreases n,
{
    if n > 0 {
        dropping_keeps(context, regions, slot, n - 1, other);
        assert forall|k: int| 0 <= k < n - 1 implies #[trigger] regions[k] != regions[n - 1] by {}
        dropping_keeps(context, regions, slot, n - 1, regions[n - 1]);
        let before = context.regions_without_state(regions, slot, n - 1);
        assert(before.ir.region(regions[n - 1]) is Some);
        assert(regions[n - 1] != other);
    }
}

proof fn dropping_keeps_ops(context: ContextView, regions: Seq<RegionId>, slot: StateSlot, n: int)
    ensures
        context.regions_without_state(regions, slot, n).ir.ops == context.ir.ops,
    decreases n,
{
    if n > 0 {
        dropping_keeps_ops(context, regions, slot, n - 1);
    }
}

impl Context {
    fn drop_state_of(&mut self, region: RegionId, slot: &StateSlot)
        requires
            old(self).inv(),
            old(self)@.holds_slot(region, *slot),
        ensures
            final(self).inv(),
            final(self)@ == old(self)@.region_without_state(region, *slot),
    {
        let mut results = self.region_results(region);
        match slot.continue_ {
            Some(at) => {
                if at > slot.exit {
                    let _ = results.remove(at);
                    let _ = results.remove(slot.exit);
                } else {
                    let _ = results.remove(slot.exit);
                    let _ = results.remove(at);
                }
            },
            None => {
                let _ = results.remove(slot.exit);
            },
        }
        self.set_region_results(region, results);
        self.remove_region_port(region, slot.port);
    }

    /// Drops the `ordinal`-th state a loop or a gate carries, the inverse of
    /// [`Context::grow_declared_port`] for a chain. The chain flows past the
    /// operation instead of through it, which is what a chain the body leaves
    /// alone was doing all along.
    ///
    /// The caller has already handed the port's readers what the operation was
    /// entered on and its result's readers that same state; what is left is the
    /// port list, and it goes.
    pub fn drop_state(&mut self, op: OpId, ordinal: usize)
        requires
            old(self).inv(),
            old(self)@.readable(op),
            old(self)@.groups_recorded(op),
            old(self)@.carried_operands(op).1 <= MAX_IDS,
            old(self)@.carrier(op) is Some && old(self)@.ir.op(op)->0.regions.len() > 0 ==> old(
                self,
            )@.port_types(op).len() <= MAX_IDS,
            old(self)@.values_live(old(self)@.ir.op(op)->0.results),
            ordinal < old(self)@.state_slots(op).len(),
            ({
                let slot = old(self)@.state_slots(op)[ordinal as int];
                let o = old(self)@.ir.op(op)->0;
                &&& o.regions.no_duplicates()
                &&& slot.operand < o.operands.len()
                &&& slot.result < o.results.len()
                &&& forall|i: int|
                    0 <= i < o.regions.len() ==> old(self)@.holds_slot(
                        #[trigger] o.regions[i],
                        slot,
                    )
            }),
        ensures
            final(self).inv(),
            final(self)@ == old(self)@.without_state(
                op,
                old(self)@.state_slots(op)[ordinal as int],
            ),
    {
        let ghost before = self@;
        let slots = state_slots(self, op);
        let slot = slots[ordinal];
        let regions = crate::ir::copy_list(self.regions_of(op));
        let mut i: usize = 0;
        while i < regions.len()
            invariant
                i <= regions.len(),
                self.inv(),
                regions@ == before.ir.op(op)->0.regions,
                regions@.no_duplicates(),
                self@ == before.regions_without_state(regions@, slot, i as int),
                forall|k: int|
                    0 <= k < regions@.len() ==> before.holds_slot(#[trigger] regions@[k], slot),
            decreases regions.len() - i,
        {
            proof {
                assert forall|k: int| 0 <= k < i implies #[trigger] regions@[k]
                    != regions@[i as int] by {}
                assert forall|k: int| 0 <= k < i implies before.ir.region(
                    #[trigger] regions@[k],
                ) is Some by {
                    assert(before.holds_slot(regions@[k], slot));
                }
                dropping_keeps(before, regions@, slot, i as int, regions@[i as int]);
                assert(before.holds_slot(regions@[i as int], slot));
            }
            self.drop_state_of(regions[i], &slot);
            i += 1;
        }
        proof {
            dropping_keeps_ops(before, regions@, slot, i as int);
        }
        self.remove_operand(op, slot.operand);
        self.remove_result(op, slot.result);
    }
}

proof fn filtered_is_no_longer(context: ContextView, ids: Seq<ValueId>, states: bool)
    ensures
        context.filtered(ids, states).len() <= ids.len(),
    decreases ids.len(),
{
    if ids.len() > 0 {
        filtered_is_no_longer(context, ids.drop_last(), states);
    }
}

} // verus!

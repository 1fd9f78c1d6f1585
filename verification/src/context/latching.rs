//! One more port of a declared loop or gate in two steps: the port enters first, so
//! that what each region hands back can be built from it, and is named after.
use vstd::prelude::*;
use crate::binding::declared;
use crate::binding::ids_of;
use crate::binding::port_ids;
use crate::context::ports::exit_lists;
use crate::context::ports::feeding_keeps;
use crate::context::Context;
use crate::context::ContextView;
use crate::ids::OpId;
use crate::ids::RegionId;
use crate::ids::TypeId;
use crate::ids::ValueId;
use crate::interfaces::Binding;
use crate::lists::MAX_IDS;
use crate::tree::all_trees;

verus! {

/// A port that entered a loop or a gate and is not handed back yet.
#[derive(Debug)]
pub struct EnteredPort {
    pub ty: TypeId,
    /// Whether it entered a loop.
    pub theta: bool,
    /// What the op carried before the port entered.
    pub binding: Binding,
    /// The port of each region; none where nothing is carried in.
    pub ports: Vec<ValueId>,
}

impl ContextView {
    /// The first `n` of `regions` with one more port.
    pub open spec fn ports_entered(
        self,
        regions: Seq<RegionId>,
        ty: TypeId,
        b: Binding,
        n: int,
    ) -> Self
        decreases n,
    {
        if n <= 0 {
            self
        } else {
            let before = self.ports_entered(regions, ty, b, n - 1);
            before.with_fresh_port(
                regions[n - 1],
                before.joining(ids_of(before.region_ports(regions[n - 1])), b.ports, ty),
                ty,
            )
        }
    }

    /// A loop or a gate that takes `init` in, through one more operand and one more
    /// port of each region; one that takes nothing in is left as it is.
    pub open spec fn port_entered(self, op: OpId, ty: TypeId, init: Option<ValueId>) -> Self {
        let b = self.binding(op);
        let regions = self.ir.op(op)->0.regions;
        match init {
            Some(init) => self.with_operand_at(
                op,
                self.joining(self.ir.op(op)->0.operands, b.operands, ty),
                init,
                b.operands.end as nat,
            ).ports_entered(regions, ty, b, regions.len() as int),
            None => self,
        }
    }

    /// A region that hands `value` back: a loop's body leaves by its own port and
    /// goes on with `value`, and an arm produces it. What leaves the op from under the
    /// region gains the port.
    pub open spec fn result_latched(
        self,
        region: RegionId,
        ty: TypeId,
        theta: bool,
        b: Binding,
        port: Option<ValueId>,
        value: ValueId,
        exits: Seq<OpId>,
    ) -> Self {
        let results = self.region_results(region);
        let latched = if theta {
            let exited = self.with_region_result(
                region,
                self.joining(results, b.exit, ty),
                port->0,
            );
            exited.with_region_result(region, self.joining(results, b.continue_, ty), value)
        } else {
            self.with_region_result(region, self.joining(results, b.exit, ty), value)
        };
        match port {
            Some(port) => latched.fed(exits, port, exits.len() as int),
            None => latched,
        }
    }

    /// The first `n` of `regions`, each handing back what `latched` says, or its own
    /// port where that is nothing.
    pub open spec fn results_latched(
        self,
        regions: Seq<RegionId>,
        ty: TypeId,
        theta: bool,
        b: Binding,
        ports: Seq<ValueId>,
        latched: Seq<Option<ValueId>>,
        exits: Seq<Seq<OpId>>,
        n: int,
    ) -> Self
        decreases n,
    {
        if n <= 0 {
            self
        } else {
            let before = self.results_latched(
                regions,
                ty,
                theta,
                b,
                ports,
                latched,
                exits,
                n - 1,
            );
            before.result_latched(
                regions[n - 1],
                ty,
                theta,
                b,
                port_at(ports, n - 1),
                value_at(ports, latched, n - 1),
                exits[n - 1],
            )
        }
    }

    /// Whether a region's results have the places a binding names.
    pub open spec fn latchable(self, region: RegionId, b: Binding) -> bool {
        &&& self.is_nodes(region)
        &&& self.node_results(region).len() <= MAX_IDS
        &&& b.exit.start <= b.exit.end <= self.node_results(region).len()
        &&& b.continue_.start <= b.continue_.end <= self.node_results(region).len()
    }
}

/// The port at `i`, where there is one.
pub open spec fn port_at(ports: Seq<ValueId>, i: int) -> Option<ValueId> {
    if ports.len() > 0 {
        Some(ports[i])
    } else {
        None
    }
}

/// What the region at `i` hands back: what is latched, or its own port.
pub open spec fn value_at(
    ports: Seq<ValueId>,
    latched: Seq<Option<ValueId>>,
    i: int,
) -> ValueId {
    match latched[i] {
        Some(value) => value,
        None => ports[i],
    }
}

impl Context {
    /// Has `op` take one more value of type `ty` in. A loop takes `init`; a gate
    /// forwards it where there is one. The ports its regions gain are handed back, for
    /// [`Context::latch_port`] to name what becomes of them.
    pub fn enter_port(&mut self, op: OpId, ty: TypeId, init: Option<ValueId>) -> (r: EnteredPort)
        requires
            old(self).inv(),
            old(self)@.growable(op),
            init matches Some(v) ==> v.0 < u32::MAX,
        ensures
            final(self).inv(),
            final(self)@ == old(self)@.port_entered(op, ty, init),
            r.ty == ty,
            r.theta == old(self)@.is_theta(op),
            r.binding == old(self)@.binding(op),
            r.ports@ == (if init is Some {
                Seq::new(
                    old(self)@.ir.op(op)->0.regions.len(),
                    |i: int| ValueId((old(self)@.ir.values.now.len() + i) as u32),
                )
            } else {
                Seq::empty()
            }),
    {
        let ghost before = self@;
        let theta = match crate::binding::carrier(self, op) {
            Some(crate::binding::Carrier::Switch) => false,
            _ => true,
        };
        let binding = declared(self, op).unwrap();
        let regions = crate::ir::copy_list(self.regions_of(op));
        let mut ports: Vec<ValueId> = Vec::new();
        let value = match init {
            Some(value) => value,
            None => {
                assert(ports@ =~= Seq::<ValueId>::empty());
                return EnteredPort { ty, theta, binding, ports };
            },
        };
        let operands = crate::ir::copy_list(self.operands_of(op));
        let at: usize = self.join_at(&operands, &binding.operands, ty);
        self.insert_operand_at(op, at, value, binding.operands.end);
        let ghost entered = self@;
        let mut i: usize = 0;
        assert forall|k: int| 0 <= k < regions@.len() implies entered.region_growable(
            #[trigger] regions@[k],
            binding,
        ) by {
            assert(before.region_growable(before.ir.op(op)->0.regions[k], binding));
        }
        while i < regions.len()
            invariant
                i <= regions.len(),
                self.inv(),
                regions@.no_duplicates(),
                regions@ == before.ir.op(op)->0.regions,
                entered.ir.values.now.len() == before.ir.values.now.len(),
                before.ir.values.now.len() + regions@.len() + 1 <= u32::MAX,
                self@.ir.values.now.len() == before.ir.values.now.len() + i,
                ports.len() == i,
                forall|k: int|
                    0 <= k < i ==> #[trigger] ports@[k] == ValueId(
                        (before.ir.values.now.len() + k) as u32,
                    ),
                self@ == entered.ports_entered(regions@, ty, binding, i as int),
                forall|k: int|
                    i <= k < regions@.len() ==> self@.region_growable(
                        #[trigger] regions@[k],
                        binding,
                    ),
            decreases regions.len() - i,
        {
            let ghost so_far = self@;
            assert(so_far.region_growable(regions@[i as int], binding));
            let held = port_ids(self, regions[i]);
            let at: usize = self.join_at(&held, &binding.ports, ty);
            let port = self.mint_port(regions[i], at, ty);
            ports.push(port);
            proof {
                assert forall|k: int| i < k < regions@.len() implies self@.region_growable(
                    #[trigger] regions@[k],
                    binding,
                ) by {
                    assert(regions@[k] != regions@[i as int]);
                    assert(so_far.region_growable(regions@[k], binding));
                    assert(self@.ir.region(regions@[k]) == so_far.ir.region(regions@[k]));
                }
            }
            i += 1;
        }
        assert(ports@ =~= Seq::new(
            regions@.len(),
            |k: int| ValueId((before.ir.values.now.len() + k) as u32),
        ));
        EnteredPort { ty, theta, binding, ports }
    }

    /// Names what each region of `op` hands back of a port that entered: `latched`, or
    /// the port itself. Every non-local exit that leaves `op` gains the port of the
    /// region it sits under, where `targets` says what each exit leaves. The op gains
    /// one result, the value minted last, which is handed back.
    pub fn latch_port(
        &mut self,
        op: OpId,
        entered: &EnteredPort,
        latched: &Vec<Option<ValueId>>,
        targets: &Vec<(OpId, OpId)>,
    ) -> (id: ValueId)
        requires
            old(self).inv(),
            old(self)@.sound(),
            old(self)@.ir.op(op) is Some,
            old(self)@.ir.op(op)->0.results.len() <= MAX_IDS,
            old(self)@.ir.op(op)->0.regions.no_duplicates(),
            old(self)@.ir.values.now.len() < u32::MAX,
            latched@.len() == old(self)@.ir.op(op)->0.regions.len(),
            entered.ports@.len() == 0 || entered.ports@.len() == latched@.len(),
            entered.theta ==> entered.ports@.len() == latched@.len(),
            forall|i: int| 0 <= i < entered.ports@.len() ==> (#[trigger] entered.ports@[i]).0
                < u32::MAX,
            forall|i: int|
                0 <= i < latched@.len() ==> entered.theta || (#[trigger] latched@[i]) is Some,
            forall|i: int|
                0 <= i < latched@.len() ==> old(self)@.latchable(
                    #[trigger] old(self)@.ir.op(op)->0.regions[i],
                    entered.binding,
                ) && all_trees(
                    old(self)@.kids(),
                    old(self)@.region_ops(old(self)@.ir.op(op)->0.regions[i]),
                ),
        ensures
            final(self).inv(),
            ({
                let regions = old(self)@.ir.op(op)->0.regions;
                final(self)@ == old(self)@.results_latched(
                    regions,
                    entered.ty,
                    entered.theta,
                    entered.binding,
                    entered.ports@,
                    latched@,
                    old(self)@.port_exits(op, targets@),
                    regions.len() as int,
                ).with_carried_result(op, entered.ty)
            }),
            id.0 + 1 == final(self)@.ir.values.now.len(),
    {
        let ghost before = self@;
        let ghost (ty, theta, b) = (entered.ty, entered.theta, entered.binding);
        let exits = self.port_exits(op, targets);
        let ghost lists = exit_lists(exits@);
        let regions = crate::ir::copy_list(self.regions_of(op));
        let ghost results = before.ir.op(op)->0.results;
        let mut i: usize = 0;
        while i < regions.len()
            invariant
                i <= regions.len(),
                self.inv(),
                regions@.no_duplicates(),
                latched@.len() == regions@.len(),
                exits@.len() == regions@.len(),
                lists == exit_lists(exits@),
                ty == entered.ty,
                theta == entered.theta,
                b == entered.binding,
                entered.ports@.len() == 0 || entered.ports@.len() == latched@.len(),
                theta ==> entered.ports@.len() == latched@.len(),
                forall|k: int| 0 <= k < entered.ports@.len() ==> (#[trigger] entered.ports@[k]).0
                    < u32::MAX,
                forall|k: int|
                    0 <= k < latched@.len() ==> theta || (#[trigger] latched@[k]) is Some,
                self@.ir.values.now.len() < u32::MAX,
                self@.ir.op(op) is Some,
                self@.ir.op(op)->0.results == results,
                self@ == before.results_latched(
                    regions@,
                    ty,
                    theta,
                    b,
                    entered.ports@,
                    latched@,
                    lists,
                    i as int,
                ),
                forall|k: int|
                    i <= k < regions@.len() ==> self@.latchable(#[trigger] regions@[k], b),
            decreases regions.len() - i,
        {
            let ghost so_far = self@;
            let region = regions[i];
            assert(so_far.latchable(regions@[i as int], b));
            assert(theta || latched@[i as int] is Some);
            assert(lists[i as int] == exits@[i as int]@);
            let value = match latched[i] {
                Some(value) => value,
                None => entered.ports[i],
            };
            let held = self.region_results(region);
            let exit_at: usize = self.join_at(&held, &entered.binding.exit, entered.ty);
            if entered.theta {
                let continue_at: usize = self.join_at(
                    &held,
                    &entered.binding.continue_,
                    entered.ty,
                );
                self.insert_region_result(region, exit_at, entered.ports[i]);
                self.insert_region_result(region, continue_at, value);
            } else {
                self.insert_region_result(region, exit_at, value);
            }
            let ghost named = self@;
            if entered.ports.len() > 0 {
                assert(entered.ports@[i as int].0 < u32::MAX);
                self.feed(&exits[i], entered.ports[i]);
                proof {
                    feeding_keeps(
                        named,
                        exits@[i as int]@,
                        entered.ports@[i as int],
                        exits@[i as int]@.len() as int,
                    );
                }
            }
            proof {
                assert forall|k: int| i < k < regions@.len() implies self@.latchable(
                    #[trigger] regions@[k],
                    b,
                ) by {
                    assert(regions@[k] != regions@[i as int]);
                    assert(so_far.latchable(regions@[k], b));
                    assert(self@.ir.region(regions@[k]) == so_far.ir.region(regions@[k]));
                }
            }
            i += 1;
        }
        self.join_result(op, entered.ty)
    }
}

} // verus!

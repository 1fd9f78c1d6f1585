//! Unordered regions: operations that only their dependencies order.
use vstd::prelude::*;
use crate::context::edits::op_placed;
use crate::context::edits::ops_placed;
use crate::context::edits::ops_without;
use crate::context::edits::port_placed;
use crate::context::edits::ports_placed;
use crate::context::Context;
use crate::context::ContextView;
use crate::ids::OpId;
use crate::ids::RegionId;
use crate::ids::ValueId;
use crate::ir::copy_list;
use crate::ir::BodyView;
use crate::ir::IrView;
use crate::ir::Parent;
use crate::ir::Region;
use crate::ir::RegionBody;
use crate::ir::RegionView;
use crate::ir::Value;
use crate::overlay::Record;

verus! {

impl ContextView {
    /// With an empty region made unordered: it takes `ports` as its own
    /// arguments, holds `ops` and produces `results`.
    pub open spec fn with_nodes_region(
        self,
        region: RegionId,
        ports: Seq<Value>,
        ops: Seq<OpId>,
        results: Seq<ValueId>,
    ) -> Self {
        let body = self.with_nodes(region, ports, ops, results).ir;
        self.with_ir(
            ops_placed(
                ports_placed(body, ports, Some(region), ports.len()),
                ops,
                Some(Parent::Region(region)),
                ops.len(),
            ),
        )
    }

    /// The ports of an unordered region.
    pub open spec fn node_ports(self, region: RegionId) -> Seq<Value> {
        self.ir.region(region)->0.body->Nodes_0
    }

    /// The operations of an unordered region.
    pub open spec fn node_ops(self, region: RegionId) -> Seq<OpId> {
        self.ir.region(region)->0.body->Nodes_1
    }

    /// The values an unordered region produces.
    pub open spec fn node_results(self, region: RegionId) -> Seq<ValueId> {
        self.ir.region(region)->0.body->Nodes_2
    }
}

/// A list without the entries that are `op` is as long or shorter, and holds
/// just the others.
pub proof fn ops_without_members(ops: Seq<OpId>, op: OpId)
    ensures
        forall|x: OpId| #[trigger]
            ops_without(ops, op).contains(x) <==> ops.contains(x) && x != op,
        ops_without(ops, op).len() <= ops.len(),
    decreases ops.len(),
{
    if ops.len() > 0 {
        let rest = ops.drop_last();
        ops_without_members(rest, op);
        crate::seqs::push_contains(rest, ops.last());
        crate::seqs::push_contains(ops_without(rest, op), ops.last());
        assert(ops =~= rest.push(ops.last()));
        assert forall|x: OpId| #[trigger]
            ops_without(ops, op).contains(x) <==> ops.contains(x) && x != op by {
            assert(ops_without(rest, op).contains(x) <==> rest.contains(x) && x != op);
        }
    }
}

fn without_op(ops: &Vec<OpId>, op: OpId) -> (r: Vec<OpId>)
    ensures
        r@ == ops_without(ops@, op),
{
    let mut r: Vec<OpId> = Vec::new();
    let mut i: usize = 0;
    while i < ops.len()
        invariant
            i <= ops.len(),
            r@ == ops_without(ops@.take(i as int), op),
        decreases ops.len() - i,
    {
        assert(ops@.take(i + 1).drop_last() =~= ops@.take(i as int));
        if ops[i] != op {
            r.push(ops[i]);
        }
        i += 1;
    }
    assert(ops@.take(i as int) =~= ops@);
    r
}

impl Context {
    fn set_nodes(
        &mut self,
        region: RegionId,
        ports: Vec<Value>,
        ops: Vec<OpId>,
        results: Vec<ValueId>,
    )
        requires
            old(self).inv(),
            old(self)@.ir.region(region) is Some,
        ensures
            final(self).inv(),
            final(self)@ == old(self)@.with_nodes(region, ports@, ops@, results@),
    {
        let mut held: Region = self.ir.get_region(region).unwrap().copy();
        held.body = RegionBody::Nodes { ports, ops, results };
        self.ir.put_region(region, held);
    }

    /// The ports, operations and results of an unordered region.
    pub(crate) fn nodes_of(&self, region: RegionId) -> (r: (Vec<Value>, Vec<OpId>, Vec<ValueId>))
        requires
            self.inv(),
            self@.is_nodes(region),
        ensures
            r.0@ == self@.node_ports(region),
            r.1@ == self@.node_ops(region),
            r.2@ == self@.node_results(region),
    {
        match &self.ir.get_region(region).unwrap().body {
            RegionBody::Nodes { ports, ops, results } => (
                copy_list(ports),
                copy_list(ops),
                copy_list(results),
            ),
            RegionBody::Blocks(_) => (Vec::new(), Vec::new(), Vec::new()),
        }
    }

    pub(crate) fn place_ports(&mut self, ports: &Vec<Value>, region: Option<RegionId>)
        requires
            old(self).inv(),
        ensures
            final(self).inv(),
            final(self)@ == old(self)@.with_ir(
                ports_placed(old(self)@.ir, ports@, region, ports@.len()),
            ),
    {
        let ghost before = self@;
        let mut i: usize = 0;
        while i < ports.len()
            invariant
                i <= ports.len(),
                self.inv(),
                self@ == before.with_ir(ports_placed(before.ir, ports@, region, i as nat)),
            decreases ports.len() - i,
        {
            self.place_port(ports[i].id, region);
            i += 1;
        }
    }

    pub(crate) fn place_ops(&mut self, ops: &Vec<OpId>, parent: Option<Parent>)
        requires
            old(self).inv(),
        ensures
            final(self).inv(),
            final(self)@ == old(self)@.with_ir(
                ops_placed(old(self)@.ir, ops@, parent, ops@.len()),
            ),
    {
        let ghost before = self@;
        let mut i: usize = 0;
        while i < ops.len()
            invariant
                i <= ops.len(),
                self.inv(),
                self@ == before.with_ir(ops_placed(before.ir, ops@, parent, i as nat)),
            decreases ops.len() - i,
        {
            self.place_op(ops[i], parent);
            i += 1;
        }
    }

    /// Makes an empty region unordered; see [`Context::create_nodes_region`].
    pub fn set_region_nodes(
        &mut self,
        region: RegionId,
        ports: Vec<Value>,
        ops: Vec<OpId>,
        results: Vec<ValueId>,
    )
        requires
            old(self).inv(),
            old(self)@.ir.region(region) is Some,
            old(self)@.ir.region(region)->0.body is Blocks,
            old(self)@.ir.region(region)->0.body->Blocks_0.len() == 0,
            forall|i: int|
                0 <= i < ports@.len() ==> old(self)@.ir.value((#[trigger] ports@[i]).id) is Some,
            forall|i: int| 0 <= i < ops@.len() ==> old(self)@.ir.op(#[trigger] ops@[i]) is Some,
        ensures
            final(self).inv(),
            final(self)@ == old(self)@.with_nodes_region(region, ports@, ops@, results@),
    {
        let placed_ports = copy_list(&ports);
        let placed_ops = copy_list(&ops);
        self.set_nodes(region, ports, ops, results);
        self.place_ports(&placed_ports, Some(region));
        self.place_ops(&placed_ops, Some(Parent::Region(region)));
    }

    /// Mints an unordered region holding `ops`, taking `ports` as its own
    /// arguments and producing `results`.
    pub fn create_nodes_region(
        &mut self,
        ports: Vec<Value>,
        ops: Vec<OpId>,
        results: Vec<ValueId>,
    ) -> (id: RegionId)
        requires
            old(self).inv(),
            old(self)@.ir.regions.now.len() < u32::MAX,
            forall|i: int|
                0 <= i < ports@.len() ==> old(self)@.ir.value((#[trigger] ports@[i]).id) is Some,
            forall|i: int| 0 <= i < ops@.len() ==> old(self)@.ir.op(#[trigger] ops@[i]) is Some,
        ensures
            final(self).inv(),
            id.0 == old(self)@.ir.regions.now.len(),
            final(self)@ == old(self)@.with_ir(
                old(self)@.ir.add_region(
                    RegionView { parent_op: None, body: BodyView::Blocks(Seq::empty()) },
                ),
            ).with_nodes_region(id, ports@, ops@, results@),
    {
        let id = self.create_region();
        assert(self@.ir.region(id) == Some(
            RegionView { parent_op: None, body: BodyView::Blocks(Seq::empty()) },
        ));
        assert forall|i: int| 0 <= i < ports@.len() implies self@.ir.value(
            (#[trigger] ports@[i]).id,
        ) is Some by {}
        assert forall|i: int| 0 <= i < ops@.len() implies self@.ir.op(
            #[trigger] ops@[i],
        ) is Some by {}
        self.set_region_nodes(id, ports, ops, results);
        id
    }

    /// Puts `op` into the unordered `region`. Nothing about the position means
    /// anything: the region's dependencies say what runs before what.
    pub fn add(&mut self, region: RegionId, op: OpId)
        requires
            old(self).inv(),
            old(self)@.is_nodes(region),
            old(self)@.ir.op(op) is Some,
        ensures
            final(self).inv(),
            ({
                let held = old(self)@.with_nodes(
                    region,
                    old(self)@.node_ports(region),
                    old(self)@.node_ops(region).push(op),
                    old(self)@.node_results(region),
                );
                final(self)@ == held.with_ir(
                    op_placed(held.ir, op, Some(Parent::Region(region))),
                ).reported_region(region)
            }),
    {
        let (ports, mut ops, results) = self.nodes_of(region);
        ops.push(op);
        self.set_nodes(region, ports, ops, results);
        self.place_op(op, Some(Parent::Region(region)));
        self.report_region(region);
    }

    /// Chooses another insertion order for the operations the unordered
    /// `region` already holds; `ops` is a permutation of them.
    pub fn set_region_ops(&mut self, region: RegionId, ops: Vec<OpId>)
        requires
            old(self).inv(),
            old(self)@.is_nodes(region),
            ops@.to_multiset() == old(self)@.node_ops(region).to_multiset(),
        ensures
            final(self).inv(),
            final(self)@ == old(self)@.with_nodes(
                region,
                old(self)@.node_ports(region),
                ops@,
                old(self)@.node_results(region),
            ).reported_region(region),
    {
        let (ports, _held, results) = self.nodes_of(region);
        self.set_nodes(region, ports, ops, results);
        self.report_region(region);
    }

    /// Names the values the unordered `region` produces.
    pub fn set_region_results(&mut self, region: RegionId, results: Vec<ValueId>)
        requires
            old(self).inv(),
            old(self)@.is_nodes(region),
        ensures
            final(self).inv(),
            final(self)@ == old(self)@.with_nodes(
                region,
                old(self)@.node_ports(region),
                old(self)@.node_ops(region),
                results@,
            ).reported_region(region),
    {
        let (ports, ops, _held) = self.nodes_of(region);
        self.set_nodes(region, ports, ops, results);
        self.report_region(region);
    }

    /// Drops the port at `index` of an unordered region.
    pub fn remove_region_port(&mut self, region: RegionId, index: usize)
        requires
            old(self).inv(),
            old(self)@.is_nodes(region),
            index < old(self)@.node_ports(region).len(),
        ensures
            final(self).inv(),
            final(self)@ == old(self)@.with_nodes(
                region,
                old(self)@.node_ports(region).remove(index as int),
                old(self)@.node_ops(region),
                old(self)@.node_results(region),
            ).reported_region(region),
    {
        let (mut ports, ops, results) = self.nodes_of(region);
        let _ = ports.remove(index);
        self.set_nodes(region, ports, ops, results);
        self.report_region(region);
    }

    /// Puts `port` at position `index` of the unordered `region`'s ports.
    pub fn insert_region_port(&mut self, region: RegionId, index: usize, port: Value)
        requires
            old(self).inv(),
            old(self)@.is_nodes(region),
            index <= old(self)@.node_ports(region).len(),
            old(self)@.ir.value(port.id) is Some,
        ensures
            final(self).inv(),
            ({
                let held = old(self)@.with_nodes(
                    region,
                    old(self)@.node_ports(region).insert(index as int, port),
                    old(self)@.node_ops(region),
                    old(self)@.node_results(region),
                );
                final(self)@ == held.with_ir(
                    port_placed(held.ir, port.id, Some(region)),
                ).reported_region(region)
            }),
    {
        let (mut ports, ops, results) = self.nodes_of(region);
        ports.insert(index, port);
        self.set_nodes(region, ports, ops, results);
        self.place_port(port.id, Some(region));
        self.report_region(region);
    }

    /// Names `value` at position `index` of the unordered `region`'s results.
    pub fn insert_region_result(&mut self, region: RegionId, index: usize, value: ValueId)
        requires
            old(self).inv(),
            old(self)@.is_nodes(region),
            index <= old(self)@.node_results(region).len(),
        ensures
            final(self).inv(),
            final(self)@ == old(self)@.with_nodes(
                region,
                old(self)@.node_ports(region),
                old(self)@.node_ops(region),
                old(self)@.node_results(region).insert(index as int, value),
            ).reported_region(region),
    {
        let (ports, ops, mut results) = self.nodes_of(region);
        results.insert(index, value);
        self.set_nodes(region, ports, ops, results);
        self.report_region(region);
    }

    /// Takes `op` out of the unordered `region` without erasing it; the inverse
    /// of [`Context::add`].
    pub fn remove_from_region(&mut self, region: RegionId, op: OpId)
        requires
            old(self).inv(),
            old(self)@.is_nodes(region),
        ensures
            final(self).inv(),
            ({
                let held = old(self)@.with_nodes(
                    region,
                    old(self)@.node_ports(region),
                    ops_without(old(self)@.node_ops(region), op),
                    old(self)@.node_results(region),
                );
                final(self)@ == held.with_ir(op_placed(held.ir, op, None)).reported_region(region)
            }),
    {
        let (ports, ops, results) = self.nodes_of(region);
        let kept = without_op(&ops, op);
        self.set_nodes(region, ports, kept, results);
        self.place_op(op, None);
        self.report_region(region);
    }
}

/// Taking out an operation that was just put into a region leaves the region
/// holding what it held, where it did not hold the operation before.
pub proof fn removing_undoes_adding(ops: Seq<OpId>, op: OpId)
    requires
        !ops.contains(op),
    ensures
        ops_without(ops.push(op), op) == ops,
    decreases ops.len(),
{
    assert(ops.push(op).drop_last() =~= ops);
    without_absent(ops, op);
}

proof fn without_absent(ops: Seq<OpId>, op: OpId)
    requires
        !ops.contains(op),
    ensures
        ops_without(ops, op) == ops,
    decreases ops.len(),
{
    if ops.len() > 0 {
        let rest = ops.drop_last();
        assert forall|i: int| 0 <= i < rest.len() implies rest[i] != op by {
            assert(ops[i] == rest[i]);
            assert(ops.contains(ops[i]));
        }
        assert(ops.contains(ops.last()));
        without_absent(rest, op);
        assert(ops =~= rest.push(ops.last()));
    } else {
        assert(ops_without(ops, op) =~= ops);
    }
}

/// Saying where ports and operations belong leaves every region as it was.
pub proof fn placing_keeps_regions(ir: IrView, ports: Seq<Value>, ops: Seq<OpId>, region: RegionId)
    ensures
        ops_placed(
            ports_placed(ir, ports, Some(region), ports.len()),
            ops,
            Some(Parent::Region(region)),
            ops.len(),
        ).regions == ir.regions,
{
    port_placing_keeps_regions(ir, ports, Some(region), ports.len());
    op_placing_keeps_regions(
        ports_placed(ir, ports, Some(region), ports.len()),
        ops,
        Some(Parent::Region(region)),
        ops.len(),
    );
}

proof fn port_placing_keeps_regions(
    ir: IrView,
    ports: Seq<Value>,
    region: Option<RegionId>,
    n: nat,
)
    ensures
        ports_placed(ir, ports, region, n).regions == ir.regions,
    decreases n,
{
    if n > 0 {
        port_placing_keeps_regions(ir, ports, region, (n - 1) as nat);
    }
}

proof fn op_placing_keeps_regions(ir: IrView, ops: Seq<OpId>, parent: Option<Parent>, n: nat)
    ensures
        ops_placed(ir, ops, parent, n).regions == ir.regions,
    decreases n,
{
    if n > 0 {
        op_placing_keeps_regions(ir, ops, parent, (n - 1) as nat);
    }
}

} // verus!

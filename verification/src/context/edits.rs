//! Edits of single records. Each reports itself on the spine: the operations
//! enclosing what changed.
use vstd::prelude::*;
use crate::attributes::named_views;
use crate::attributes::set_attribute;
use crate::attributes::with_attribute;
use crate::attributes::AttrView;
use crate::attributes::AttributeValue;
use crate::attributes::NamedAttribute;
use crate::context::Context;
use crate::context::ContextView;
use crate::ids::state_type;
use crate::ids::BlockId;
use crate::ids::OpId;
use crate::ids::OpNameId;
use crate::ids::RegionId;
use crate::ids::TypeId;
use crate::ids::ValueId;
use crate::ir::copy_list;
use crate::ir::operands_are_minted;
use crate::ir::Block;
use crate::ir::BlockView;
use crate::ir::BodyView;
use crate::ir::IrView;
use crate::ir::OpInstance;
use crate::ir::OpView;
use crate::ir::Parent;
use crate::ir::Region;
use crate::ir::RegionBody;
use crate::ir::RegionView;
use crate::ir::Value;
use crate::ir::ValueEntry;
use crate::overlay::Record;

verus! {

/// An operation as it is described before the context stores it: the parts a
/// builder assembles, handed to [`Context::add_operation`] in one go.
pub struct NewOp {
    pub name: OpNameId,
    /// Operands, then results: the values first, then the trailing
    /// dependencies the counts below say how many of each list are.
    pub operands: Vec<ValueId>,
    pub results: Vec<ValueId>,
    pub dep_operands: u16,
    pub dep_results: u16,
    pub regions: Vec<RegionId>,
    pub attributes: Vec<NamedAttribute>,
}

/// The values of `results` that are live, each with `op` as its definition.
pub open spec fn results_defined(ir: IrView, results: Seq<ValueId>, op: OpId, n: nat) -> IrView
    decreases n,
{
    if n == 0 {
        ir
    } else {
        value_defined(results_defined(ir, results, op, (n - 1) as nat), results[n - 1], op)
    }
}

/// `value`, where it is live, with `op` as its definition.
pub open spec fn value_defined(ir: IrView, value: ValueId, op: OpId) -> IrView {
    match ir.value(value) {
        Some(entry) => ir.put_value(
            value,
            ValueEntry {
                value: Value { defining_op: Some(op), ..entry.value },
                ..entry
            },
        ),
        None => ir,
    }
}

/// The first `n` regions of `regions`, each owned by `op`.
pub open spec fn regions_owned(ir: IrView, regions: Seq<RegionId>, op: OpId, n: nat) -> IrView
    decreases n,
{
    if n == 0 {
        ir
    } else {
        let before = regions_owned(ir, regions, op, (n - 1) as nat);
        match before.region(regions[n - 1]) {
            Some(region) => before.put_region(
                regions[n - 1],
                RegionView { parent_op: Some(op), ..region },
            ),
            None => before,
        }
    }
}

/// The first `n` blocks of `blocks`, each in `region`.
pub open spec fn blocks_placed(
    ir: IrView,
    blocks: Seq<BlockId>,
    region: Option<RegionId>,
    n: nat,
) -> IrView
    decreases n,
{
    if n == 0 {
        ir
    } else {
        let before = blocks_placed(ir, blocks, region, (n - 1) as nat);
        match before.block(blocks[n - 1]) {
            Some(block) => before.put_block(blocks[n - 1], BlockView { parent: region, ..block }),
            None => before,
        }
    }
}

/// The first `n` operations of `ops`, each held by `parent`.
pub open spec fn ops_placed(ir: IrView, ops: Seq<OpId>, parent: Option<Parent>, n: nat) -> IrView
    decreases n,
{
    if n == 0 {
        ir
    } else {
        op_placed(ops_placed(ir, ops, parent, (n - 1) as nat), ops[n - 1], parent)
    }
}

/// `op`, where it is live, held by `parent`.
pub open spec fn op_placed(ir: IrView, op: OpId, parent: Option<Parent>) -> IrView {
    match ir.op(op) {
        Some(held) => ir.put_op(op, OpView { parent, ..held }),
        None => ir,
    }
}

/// The first `n` values of `ports`, each a port of `region`.
pub open spec fn ports_placed(
    ir: IrView,
    ports: Seq<Value>,
    region: Option<RegionId>,
    n: nat,
) -> IrView
    decreases n,
{
    if n == 0 {
        ir
    } else {
        port_placed(ports_placed(ir, ports, region, (n - 1) as nat), ports[n - 1].id, region)
    }
}

/// `value`, where it is live, a port of `region`.
pub open spec fn port_placed(ir: IrView, value: ValueId, region: Option<RegionId>) -> IrView {
    match ir.value(value) {
        Some(entry) => ir.put_value(value, ValueEntry { region, ..entry }),
        None => ir,
    }
}

/// `value`, where it is live, an argument of `block`.
pub open spec fn argument_placed(ir: IrView, value: ValueId, block: Option<BlockId>) -> IrView {
    match ir.value(value) {
        Some(entry) => ir.put_value(value, ValueEntry { block, ..entry }),
        None => ir,
    }
}

/// The first `n` values of `arguments`, each an argument of `block`.
pub open spec fn arguments_placed(
    ir: IrView,
    arguments: Seq<Value>,
    block: Option<BlockId>,
    n: nat,
) -> IrView
    decreases n,
{
    if n == 0 {
        ir
    } else {
        argument_placed(
            arguments_placed(ir, arguments, block, (n - 1) as nat),
            arguments[n - 1].id,
            block,
        )
    }
}

/// The list without any entry that is `op`.
pub open spec fn ops_without(ops: Seq<OpId>, op: OpId) -> Seq<OpId>
    decreases ops.len(),
{
    if ops.len() == 0 {
        ops
    } else if ops.last() == op {
        ops_without(ops.drop_last(), op)
    } else {
        ops_without(ops.drop_last(), op).push(ops.last())
    }
}

/// The position of the first entry of `list` that is `x`.
pub open spec fn first_position<T>(list: Seq<T>, x: T) -> Option<int>
    decreases list.len(),
{
    if list.len() == 0 {
        None
    } else if list[0] == x {
        Some(0)
    } else {
        match first_position(list.skip(1), x) {
            Some(i) => Some(i + 1),
            None => None,
        }
    }
}

/// The position found is the position of `x`, and no earlier one is.
pub proof fn first_position_is_first<T>(list: Seq<T>, x: T)
    ensures
        match first_position(list, x) {
            Some(i) => 0 <= i < list.len() && list[i] == x && forall|j: int|
                0 <= j < i ==> list[j] != x,
            None => !list.contains(x),
        },
    decreases list.len(),
{
    if list.len() > 0 && list[0] != x {
        let rest = list.skip(1);
        first_position_is_first(rest, x);
        match first_position(rest, x) {
            Some(i) => {
                assert(list[i + 1] == rest[i]);
                assert forall|j: int| 0 <= j < i + 1 implies list[j] != x by {
                    if j > 0 {
                        assert(rest[j - 1] == list[j]);
                    }
                }
            },
            None => {
                if list.contains(x) {
                    let k = choose|k: int| 0 <= k < list.len() && list[k] == x;
                    assert(rest[k - 1] == x);
                }
            },
        }
    }
}

/// The first position of `x` is the one found.
pub proof fn first_position_at<T>(list: Seq<T>, x: T, i: int)
    requires
        0 <= i < list.len(),
        list[i] == x,
        forall|j: int| 0 <= j < i ==> list[j] != x,
    ensures
        first_position(list, x) == Some(i),
{
    first_position_is_first(list, x);
    assert(list.contains(x));
}

pub fn op_position(list: &Vec<OpId>, x: OpId) -> (r: Option<usize>)
    ensures
        match r {
            Some(i) => first_position(list@, x) == Some(i as int) && i < list.len(),
            None => first_position(list@, x) is None,
        },
{
    let mut i: usize = 0;
    while i < list.len()
        invariant
            i <= list.len(),
            forall|j: int| 0 <= j < i ==> list@[j] != x,
        decreases list.len() - i,
    {
        if list[i] == x {
            proof {
                first_position_at(list@, x, i as int);
            }
            return Some(i);
        }
        i += 1;
    }
    proof {
        first_position_is_first(list@, x);
        if list@.contains(x) {
            let k = choose|k: int| 0 <= k < list@.len() && list@[k] == x;
            assert(list@[k] != x);
        }
    }
    None
}

fn block_position(list: &Vec<BlockId>, x: BlockId) -> (r: Option<usize>)
    ensures
        match r {
            Some(i) => first_position(list@, x) == Some(i as int) && i < list.len(),
            None => first_position(list@, x) is None,
        },
{
    let mut i: usize = 0;
    while i < list.len()
        invariant
            i <= list.len(),
            forall|j: int| 0 <= j < i ==> list@[j] != x,
        decreases list.len() - i,
    {
        if list[i] == x {
            proof {
                first_position_at(list@, x, i as int);
            }
            return Some(i);
        }
        i += 1;
    }
    proof {
        first_position_is_first(list@, x);
        if list@.contains(x) {
            let k = choose|k: int| 0 <= k < list@.len() && list@[k] == x;
            assert(list@[k] != x);
        }
    }
    None
}

impl ContextView {
    pub open spec fn reported_op(self, op: OpId) -> Self {
        ContextView { journal: self.journal.edit_op(self.ir, op), ..self }
    }

    pub open spec fn reported_block(self, block: BlockId) -> Self {
        ContextView { journal: self.journal.edit_block(self.ir, block), ..self }
    }

    pub open spec fn reported_region(self, region: RegionId) -> Self {
        ContextView { journal: self.journal.edit_region(self.ir, region), ..self }
    }

    pub open spec fn reported_subtree(self, op: Option<OpId>) -> Self {
        match op {
            Some(op) => ContextView { journal: self.journal.edit_subtree(self.ir, op), ..self },
            None => self,
        }
    }

    /// With a new operation, which defines its results and owns its regions.
    pub open spec fn with_new_op(self, op: OpView) -> Self {
        let id = OpId(self.ir.ops.now.len() as u32);
        let added = self.ir.add_op(op);
        let defined = results_defined(added, op.results, id, op.results.len());
        let owned = regions_owned(defined, op.regions, id, op.regions.len());
        ContextView { ir: owned, journal: self.journal.bump(id), ..self }
    }

    pub open spec fn with_op_attributes(
        self,
        id: OpId,
        attributes: Seq<(Seq<char>, AttrView)>,
    ) -> Self {
        match self.ir.op(id) {
            Some(op) => self.with_ir(
                self.ir.put_op(id, OpView { attributes, ..op }),
            ).reported_op(id),
            None => self,
        }
    }

    /// With the operands of `id` replaced, where it is live.
    pub open spec fn with_operands(self, id: OpId, operands: Seq<ValueId>) -> Self {
        match self.ir.op(id) {
            Some(op) => self.with_ir(self.ir.put_operands(id, operands)).reported_op(id),
            None => self,
        }
    }

    pub open spec fn with_operand(self, id: OpId, index: int, new: ValueId) -> Self {
        match self.ir.op(id) {
            Some(op) => if index < op.operands.len() && op.operands[index] != new {
                self.with_operands(id, op.operands.update(index, new))
            } else {
                self
            },
            None => self,
        }
    }

    /// With the results of `id` replaced and `new` defined by it.
    pub open spec fn with_results(self, id: OpId, results: Seq<ValueId>, new: ValueId) -> Self {
        match self.ir.op(id) {
            Some(op) => self.with_ir(
                value_defined(self.ir.put_op(id, OpView { results, ..op }), new, id),
            ).reported_op(id),
            None => self,
        }
    }

    pub open spec fn with_result(self, id: OpId, index: int, new: ValueId) -> Self {
        match self.ir.op(id) {
            Some(op) => if index < op.results.len() && op.results[index] != new {
                self.with_results(id, op.results.update(index, new), new)
            } else {
                self
            },
            None => self,
        }
    }

    pub open spec fn with_value_type(self, value: ValueId, ty: TypeId) -> Self {
        match self.ir.value(value) {
            Some(entry) => {
                let changed = self.with_ir(
                    self.ir.put_value(
                        value,
                        ValueEntry { value: Value { ty, ..entry.value }, ..entry },
                    ),
                );
                match (entry.value.defining_op, entry.block, entry.region) {
                    (Some(op), _, _) => changed.reported_op(op),
                    (None, Some(block), _) => changed.reported_block(block),
                    (None, None, Some(region)) => changed.reported_region(region),
                    (None, None, None) => changed,
                }
            },
            None => self,
        }
    }

    pub open spec fn with_argument_type(self, block: BlockId, index: int, ty: TypeId) -> Self {
        match self.ir.block(block) {
            Some(b) => if index < b.arguments.len() {
                let argument = Value { ty, ..b.arguments[index] };
                let placed = self.ir.put_block(
                    block,
                    BlockView { arguments: b.arguments.update(index, argument), ..b },
                );
                let typed = match placed.value(argument.id) {
                    Some(entry) => placed.put_value(
                        argument.id,
                        ValueEntry { value: Value { ty, ..entry.value }, ..entry },
                    ),
                    None => placed,
                };
                self.with_ir(typed).reported_block(block)
            } else {
                self
            },
            None => self,
        }
    }

    pub open spec fn with_value(self, ty: TypeId, defining_op: Option<OpId>) -> Self {
        self.with_ir(self.ir.add_value(ty, defining_op))
    }

    pub open spec fn with_block(self, arguments: Seq<Value>) -> Self {
        let id = BlockId(self.ir.blocks.now.len() as u32);
        self.with_ir(
            arguments_placed(
                self.ir.add_block(
                    BlockView {
                        arguments,
                        operations: Seq::empty(),
                        attributes: Seq::empty(),
                        parent: None,
                    },
                ),
                arguments,
                Some(id),
                arguments.len(),
            ),
        )
    }

    /// With `argument` an argument of `block`, after all others.
    pub open spec fn with_placed_argument(self, block: BlockId, argument: Value) -> Self {
        match self.ir.block(block) {
            Some(b) => self.with_ir(
                argument_placed(
                    self.ir.put_block(
                        block,
                        BlockView { arguments: b.arguments.push(argument), ..b },
                    ),
                    argument.id,
                    Some(block),
                ),
            ).reported_block(block),
            None => self,
        }
    }

    /// With the operations of a block replaced and `op` held by it.
    pub open spec fn with_op_in_block(
        self,
        block: BlockId,
        operations: Seq<OpId>,
        op: OpId,
    ) -> Self {
        let placed = match self.ir.block(block) {
            Some(b) => self.ir.put_block(block, BlockView { operations, ..b }),
            None => self.ir,
        };
        self.with_ir(op_placed(placed, op, Some(Parent::Block(block)))).reported_block(block)
    }

    pub open spec fn with_op_replaced(self, block: BlockId, at: int, old_op: OpId, new_op: OpId) -> Self {
        let b = self.ir.block(block)->0;
        let placed = self.ir.put_block(
            block,
            BlockView { operations: b.operations.update(at, new_op), ..b },
        );
        self.with_ir(
            op_placed(op_placed(placed, old_op, None), new_op, Some(Parent::Block(block))),
        ).reported_block(block)
    }

    pub open spec fn with_op_removed(self, block: BlockId, at: int, op: OpId) -> Self {
        let b = self.ir.block(block)->0;
        let placed = self.ir.put_block(
            block,
            BlockView { operations: b.operations.remove(at), ..b },
        );
        self.with_ir(op_placed(placed, op, None)).reported_block(block)
    }

    pub open spec fn with_block_attr(self, block: BlockId, name: Seq<char>, value: AttrView) -> Self {
        match self.ir.block(block) {
            Some(b) => self.with_ir(
                self.ir.put_block(
                    block,
                    BlockView { attributes: with_attribute(b.attributes, name, value), ..b },
                ),
            ).reported_block(block),
            None => self,
        }
    }

    pub open spec fn with_block_ops(self, block: BlockId, operations: Seq<OpId>) -> Self {
        let b = self.ir.block(block)->0;
        self.with_ir(
            self.ir.put_block(block, BlockView { operations, ..b }),
        ).reported_block(block)
    }

    /// With what an unordered region holds replaced.
    pub open spec fn with_nodes(
        self,
        region: RegionId,
        ports: Seq<Value>,
        ops: Seq<OpId>,
        results: Seq<ValueId>,
    ) -> Self {
        let r = self.ir.region(region)->0;
        self.with_ir(
            self.ir.put_region(region, RegionView { body: BodyView::Nodes(ports, ops, results), ..r }),
        )
    }

    pub open spec fn with_block_in_region(self, region: RegionId, block: BlockId) -> Self {
        let r = self.ir.region(region)->0;
        let placed = self.ir.put_region(
            region,
            RegionView { body: BodyView::Blocks(r.body->Blocks_0.push(block)), ..r },
        );
        self.with_ir(blocks_placed(placed, seq![block], Some(region), 1)).reported_region(region)
    }
}

impl Context {
    fn report_op(&mut self, op: OpId)
        requires
            old(self).inv(),
        ensures
            final(self).inv(),
            final(self)@ == old(self)@.reported_op(op),
    {
        self.journal.edit_op(&self.ir, op);
    }

    fn report_block(&mut self, block: BlockId)
        requires
            old(self).inv(),
        ensures
            final(self).inv(),
            final(self)@ == old(self)@.reported_block(block),
    {
        self.journal.edit_block(&self.ir, block);
    }

    pub(crate) fn report_region(&mut self, region: RegionId)
        requires
            old(self).inv(),
        ensures
            final(self).inv(),
            final(self)@ == old(self)@.reported_region(region),
    {
        self.journal.edit_region(&self.ir, region);
    }

    pub(crate) fn report_subtree(&mut self, op: Option<OpId>)
        requires
            old(self).inv(),
        ensures
            final(self).inv(),
            final(self)@ == old(self)@.reported_subtree(op),
    {
        if let Some(op) = op {
            self.journal.edit_subtree(&self.ir, op);
        }
    }

    /// Makes `op` the definition of `value`, where it is live.
    fn define_value(&mut self, value: ValueId, op: OpId)
        requires
            old(self).inv(),
        ensures
            final(self).inv(),
            final(self)@ == old(self)@.with_ir(value_defined(old(self)@.ir, value, op)),
    {
        if let Some(entry) = self.ir.get_value(value) {
            let mut entry = entry;
            entry.value.defining_op = Some(op);
            self.ir.put_value(value, entry);
        }
    }

    /// Makes `parent` what holds `op`, where it is live.
    pub(crate) fn place_op(&mut self, op: OpId, parent: Option<Parent>)
        requires
            old(self).inv(),
        ensures
            final(self).inv(),
            final(self)@ == old(self)@.with_ir(op_placed(old(self)@.ir, op, parent)),
    {
        if let Some(held) = self.ir.get_op(op) {
            let mut held = held.copy();
            held.parent = parent;
            self.ir.put_op(op, held);
        }
    }

    /// Makes `value` a port of `region`, where it is live.
    pub(crate) fn place_port(&mut self, value: ValueId, region: Option<RegionId>)
        requires
            old(self).inv(),
        ensures
            final(self).inv(),
            final(self)@ == old(self)@.with_ir(port_placed(old(self)@.ir, value, region)),
    {
        if let Some(entry) = self.ir.get_value(value) {
            let mut entry = entry;
            entry.region = region;
            self.ir.put_value(value, entry);
        }
    }

    fn place_argument(&mut self, value: ValueId, block: Option<BlockId>)
        requires
            old(self).inv(),
        ensures
            final(self).inv(),
            final(self)@ == old(self)@.with_ir(argument_placed(old(self)@.ir, value, block)),
    {
        if let Some(entry) = self.ir.get_value(value) {
            let mut entry = entry;
            entry.block = block;
            self.ir.put_value(value, entry);
        }
    }

    pub(crate) fn place_blocks(&mut self, blocks: &Vec<BlockId>, region: Option<RegionId>)
        requires
            old(self).inv(),
        ensures
            final(self).inv(),
            final(self)@ == old(self)@.with_ir(
                blocks_placed(old(self)@.ir, blocks@, region, blocks@.len()),
            ),
    {
        let ghost before = self@;
        let mut i: usize = 0;
        while i < blocks.len()
            invariant
                i <= blocks.len(),
                self.inv(),
                self@ == before.with_ir(blocks_placed(before.ir, blocks@, region, i as nat)),
            decreases blocks.len() - i,
        {
            if let Some(block) = self.ir.get_block(blocks[i]) {
                let mut block = block.copy();
                block.parent = region;
                self.ir.put_block(blocks[i], block);
            }
            i += 1;
        }
    }

    /// Stores an operation: it defines its results and owns its regions.
    pub fn add_operation(&mut self, op: NewOp) -> (id: OpId)
        requires
            old(self).inv(),
            old(self)@.ir.ops.now.len() < u32::MAX,
            forall|i: int| 0 <= i < op.operands@.len() ==> (#[trigger] op.operands@[i]).0 < u32::MAX,
            forall|i: int|
                0 <= i < op.regions@.len() ==> old(self)@.ir.region(#[trigger] op.regions@[i]) is Some,
        ensures
            final(self).inv(),
            id.0 == old(self)@.ir.ops.now.len(),
            final(self)@ == old(self)@.with_new_op(
                OpView {
                    name: op.name,
                    operands: op.operands@,
                    results: op.results@,
                    regions: op.regions@,
                    dep_operands: op.dep_operands,
                    dep_results: op.dep_results,
                    attributes: named_views(op.attributes@),
                    parent: None,
                },
            ),
    {
        let ghost before = self@;
        let results = copy_list(&op.results);
        let regions = copy_list(&op.regions);
        let stored = OpInstance {
            name: op.name,
            operands: op.operands,
            results: op.results,
            regions: op.regions,
            dep_operands: op.dep_operands,
            dep_results: op.dep_results,
            attributes: op.attributes,
            parent: None,
        };
        let ghost view = stored@;
        let id = self.ir.add_op(stored);
        let ghost added = before.ir.add_op(view);
        let mut i: usize = 0;
        while i < results.len()
            invariant
                i <= results.len(),
                self.inv(),
                self@ == before.with_ir(results_defined(added, results@, id, i as nat)),
            decreases results.len() - i,
        {
            self.define_value(results[i], id);
            i += 1;
        }
        let ghost defined = results_defined(added, results@, id, results@.len());
        let mut i: usize = 0;
        while i < regions.len()
            invariant
                i <= regions.len(),
                self.inv(),
                self@ == before.with_ir(regions_owned(defined, regions@, id, i as nat)),
            decreases regions.len() - i,
        {
            if let Some(region) = self.ir.get_region(regions[i]) {
                let mut region = region.copy();
                region.parent_op = Some(id);
                self.ir.put_region(regions[i], region);
            }
            i += 1;
        }
        self.journal.bump(id);
        id
    }

    /// Replaces an operation's attributes in place, keeping its id, position, and
    /// regions.
    pub fn set_op_attributes(&mut self, id: OpId, attributes: Vec<NamedAttribute>)
        requires
            old(self).inv(),
        ensures
            final(self).inv(),
            final(self)@ == old(self)@.with_op_attributes(id, named_views(attributes@)),
    {
        if let Some(op) = self.ir.get_op(id) {
            let mut op = op.copy();
            op.attributes = attributes;
            self.ir.put_op(id, op);
            self.report_op(id);
        }
    }

    /// Replaces all of an operation's SSA operands.
    pub fn set_op_operands(&mut self, id: OpId, operands: Vec<ValueId>)
        requires
            old(self).inv(),
            forall|i: int| 0 <= i < operands@.len() ==> (#[trigger] operands@[i]).0 < u32::MAX,
        ensures
            final(self).inv(),
            final(self)@ == old(self)@.with_operands(id, operands@),
    {
        if self.ir.get_op(id).is_some() {
            self.ir.set_operands(id, operands);
            self.report_op(id);
        }
    }

    /// Replaces a single operation's SSA operand at `index`.
    pub fn set_op_operand(&mut self, id: OpId, index: usize, new: ValueId)
        requires
            old(self).inv(),
            new.0 < u32::MAX,
        ensures
            final(self).inv(),
            final(self)@ == old(self)@.with_operand(id, index as int, new),
    {
        let mut operands: Vec<ValueId> = match self.ir.get_op(id) {
            Some(op) => copy_list(&op.operands),
            None => {
                return;
            },
        };
        if index >= operands.len() || operands[index] == new {
            return;
        }
        let ghost held = operands@;
        operands.set(index, new);
        proof {
            self.inv_wf();
            assert forall|i: int| 0 <= i < operands@.len() implies (#[trigger] operands@[i]).0
                < u32::MAX by {
                operands_are_minted(self@.ir, id, i);
            }
        }
        self.set_op_operands(id, operands);
    }

    /// Replaces a single operation's SSA result at `index`, moving the
    /// definition of `new` onto this op.
    pub fn set_op_result(&mut self, id: OpId, index: usize, new: ValueId)
        requires
            old(self).inv(),
        ensures
            final(self).inv(),
            final(self)@ == old(self)@.with_result(id, index as int, new),
    {
        let mut op: OpInstance = match self.ir.get_op(id) {
            Some(op) => op.copy(),
            None => {
                return;
            },
        };
        if index >= op.results.len() || op.results[index] == new {
            return;
        }
        op.results.set(index, new);
        self.ir.put_op(id, op);
        self.define_value(new, id);
        self.report_op(id);
    }

    /// Gives a value a new type, keeping its id and every use of it.
    pub fn retype_value(&mut self, value: ValueId, ty: TypeId)
        requires
            old(self).inv(),
        ensures
            final(self).inv(),
            final(self)@ == old(self)@.with_value_type(value, ty),
    {
        if let Some(entry) = self.ir.get_value(value) {
            let mut changed = entry;
            changed.value.ty = ty;
            self.ir.put_value(value, changed);
            match (entry.value.defining_op, entry.block) {
                (Some(op), _) => self.report_op(op),
                (None, Some(block)) => self.report_block(block),
                (None, None) => {
                    if let Some(region) = entry.region {
                        self.report_region(region);
                    }
                },
            }
        }
    }

    /// [`Context::retype_value`] for a block argument, whose type the block
    /// stores alongside the value's own record.
    pub fn retype_block_argument(&mut self, block: BlockId, index: usize, ty: TypeId)
        requires
            old(self).inv(),
        ensures
            final(self).inv(),
            final(self)@ == old(self)@.with_argument_type(block, index as int, ty),
    {
        let mut held: Block = match self.ir.get_block(block) {
            Some(b) => b.copy(),
            None => {
                return;
            },
        };
        if index >= held.arguments.len() {
            return;
        }
        let mut argument: Value = held.arguments[index];
        argument.ty = ty;
        held.arguments.set(index, argument);
        self.ir.put_block(block, held);
        if let Some(entry) = self.ir.get_value(argument.id) {
            let mut entry = entry;
            entry.value.ty = ty;
            self.ir.put_value(argument.id, entry);
        }
        self.report_block(block);
    }

    /// Mints a value of type `ty`.
    pub fn create_value(&mut self, ty: TypeId, defining_op: Option<OpId>) -> (v: Value)
        requires
            old(self).inv(),
            old(self)@.ir.values.now.len() < u32::MAX,
        ensures
            final(self).inv(),
            final(self)@ == old(self)@.with_value(ty, defining_op),
            v == (Value { id: ValueId(old(self)@.ir.values.now.len() as u32), ty, defining_op }),
    {
        let id = self.ir.add_value(ty, defining_op);
        Value { id, ty, defining_op }
    }

    /// Mints a memory state: a `!state` value whose only meaning is the
    /// ordering edges that name it.
    pub fn create_state(&mut self) -> (id: ValueId)
        requires
            old(self).inv(),
            old(self)@.ir.values.now.len() < u32::MAX,
        ensures
            final(self).inv(),
            final(self)@ == old(self)@.with_value(state_type(), None),
            id.0 == old(self)@.ir.values.now.len(),
    {
        self.create_value(TypeId::state(), None).id
    }

    /// Mints an ordered region that holds nothing.
    pub fn create_region(&mut self) -> (id: RegionId)
        requires
            old(self).inv(),
            old(self)@.ir.regions.now.len() < u32::MAX,
        ensures
            final(self).inv(),
            id.0 == old(self)@.ir.regions.now.len(),
            final(self)@ == old(self)@.with_ir(
                old(self)@.ir.add_region(
                    RegionView { parent_op: None, body: BodyView::Blocks(Seq::empty()) },
                ),
            ),
    {
        let region = Region { parent_op: None, body: RegionBody::Blocks(Vec::new()) };
        assert(region@.body->Blocks_0 =~= Seq::empty());
        self.ir.add_region(region)
    }

    /// Mints a block with `arguments`, in no region.
    pub fn create_block(&mut self, arguments: Vec<Value>) -> (id: BlockId)
        requires
            old(self).inv(),
            old(self)@.ir.blocks.now.len() < u32::MAX,
            forall|i: int|
                0 <= i < arguments@.len() ==> old(self)@.ir.value(
                    (#[trigger] arguments@[i]).id,
                ) is Some,
        ensures
            final(self).inv(),
            id.0 == old(self)@.ir.blocks.now.len(),
            final(self)@ == old(self)@.with_block(arguments@),
    {
        let ghost before = self@;
        let placed = copy_list(&arguments);
        let block = Block {
            arguments,
            operations: Vec::new(),
            attributes: Vec::new(),
            parent: None,
        };
        let ghost view = block@;
        assert(view.operations =~= Seq::empty());
        assert(view.attributes =~= Seq::empty());
        let id = self.ir.add_block(block);
        let ghost added = before.ir.add_block(view);
        let mut i: usize = 0;
        while i < placed.len()
            invariant
                i <= placed.len(),
                self.inv(),
                self@ == before.with_ir(arguments_placed(added, placed@, Some(id), i as nat)),
            decreases placed.len() - i,
        {
            self.place_argument(placed[i].id, Some(id));
            i += 1;
        }
        id
    }

    /// Appends an argument of type `ty` to `block` and returns it.
    pub fn append_block_argument(&mut self, block: BlockId, ty: TypeId) -> (v: Value)
        requires
            old(self).inv(),
            old(self)@.ir.values.now.len() < u32::MAX,
        ensures
            final(self).inv(),
            v == (Value { id: ValueId(old(self)@.ir.values.now.len() as u32), ty, defining_op: None }),
            final(self)@ == old(self)@.with_value(ty, None).with_placed_argument(block, v),
    {
        let value = self.create_value(ty, None);
        let _ = self.place_block_argument(block, value);
        value
    }

    /// Makes `value` an entry argument of `block`, in place of the definition it
    /// had. Nothing is renamed: the value keeps its identity, so every reader
    /// goes on naming it.
    pub fn adopt_block_argument(&mut self, block: BlockId, value: ValueId)
        requires
            old(self).inv(),
        ensures
            final(self).inv(),
            old(self)@.ir.value(value) is None ==> final(self)@ == old(self)@,
            old(self)@.ir.block(block) is None ==> final(self)@ == old(self)@,
            old(self)@.ir.value(value) is Some && old(self)@.ir.block(block) is Some ==> ({
                let adopted = Value {
                    id: value,
                    ty: old(self)@.ir.value(value)->0.value.ty,
                    defining_op: None,
                };
                let placed = old(self)@.with_placed_argument(block, adopted);
                let entry = placed.ir.value(value)->0;
                final(self)@ == placed.with_ir(
                    placed.ir.put_value(
                        value,
                        ValueEntry {
                            value: Value { defining_op: None, ..entry.value },
                            ..entry
                        },
                    ),
                )
            }),
    {
        let entry = match self.ir.get_value(value) {
            Some(entry) => entry,
            None => {
                return;
            },
        };
        let adopted = Value::new(value, entry.value.ty, None);
        if self.place_block_argument(block, adopted) {
            if let Some(entry) = self.ir.get_value(value) {
                let mut entry = entry;
                entry.value.defining_op = None;
                self.ir.put_value(value, entry);
            }
        }
    }

    fn place_block_argument(&mut self, block: BlockId, argument: Value) -> (placed: bool)
        requires
            old(self).inv(),
            old(self)@.ir.value(argument.id) is Some,
        ensures
            final(self).inv(),
            placed == (old(self)@.ir.block(block) is Some),
            final(self)@ == old(self)@.with_placed_argument(block, argument),
            placed ==> final(self)@.ir.value(argument.id) is Some,
    {
        let mut held: Block = match self.ir.get_block(block) {
            Some(b) => b.copy(),
            None => {
                return false;
            },
        };
        held.arguments.push(argument);
        self.ir.put_block(block, held);
        self.place_argument(argument.id, Some(block));
        self.report_block(block);
        true
    }

    /// Appends `value` to `op`'s results, moving its definition onto `op`.
    pub fn adopt_result(&mut self, op: OpId, value: ValueId)
        requires
            old(self).inv(),
        ensures
            final(self).inv(),
            final(self)@ == match old(self)@.ir.op(op) {
                Some(held) => old(self)@.with_results(op, held.results.push(value), value),
                None => old(self)@,
            },
    {
        let mut held: OpInstance = match self.ir.get_op(op) {
            Some(held) => held.copy(),
            None => {
                return;
            },
        };
        held.results.push(value);
        self.ir.put_op(op, held);
        self.define_value(value, op);
        self.report_op(op);
    }

    /// Drops the result at `index`. The value it named is left with no
    /// definition, so a caller drops one nothing reads.
    pub fn remove_result(&mut self, op: OpId, index: usize)
        requires
            old(self).inv(),
            old(self)@.ir.op(op) is Some ==> index < old(self)@.ir.op(op)->0.results.len(),
        ensures
            final(self).inv(),
            final(self)@ == match old(self)@.ir.op(op) {
                Some(held) => old(self)@.with_ir(
                    old(self)@.ir.put_op(
                        op,
                        OpView { results: held.results.remove(index as int), ..held },
                    ),
                ).reported_op(op),
                None => old(self)@,
            },
    {
        let mut held: OpInstance = match self.ir.get_op(op) {
            Some(held) => held.copy(),
            None => {
                return;
            },
        };
        let _ = held.results.remove(index);
        self.ir.put_op(op, held);
        self.report_op(op);
    }

    /// Puts `value` at position `index` of `op`'s results, moving its
    /// definition onto `op`.
    pub fn insert_result_at(&mut self, op: OpId, index: usize, value: ValueId)
        requires
            old(self).inv(),
            old(self)@.ir.op(op) is Some ==> index <= old(self)@.ir.op(op)->0.results.len(),
        ensures
            final(self).inv(),
            final(self)@ == match old(self)@.ir.op(op) {
                Some(held) => old(self)@.with_results(
                    op,
                    held.results.insert(index as int, value),
                    value,
                ),
                None => old(self)@,
            },
    {
        let mut held: OpInstance = match self.ir.get_op(op) {
            Some(held) => held.copy(),
            None => {
                return;
            },
        };
        held.results.insert(index, value);
        self.ir.put_op(op, held);
        self.define_value(value, op);
        self.report_op(op);
    }

    /// Gives `op` one more result of type `ty`.
    pub fn append_result(&mut self, op: OpId, ty: TypeId) -> (id: ValueId)
        requires
            old(self).inv(),
            old(self)@.ir.values.now.len() < u32::MAX,
        ensures
            final(self).inv(),
            id.0 == old(self)@.ir.values.now.len(),
            final(self)@ == match old(self)@.ir.op(op) {
                Some(held) => {
                    let minted = old(self)@.with_value(ty, Some(op));
                    minted.with_ir(
                        minted.ir.put_op(op, OpView { results: held.results.push(id), ..held }),
                    ).reported_op(op)
                },
                None => old(self)@.with_value(ty, Some(op)),
            },
    {
        let result = self.create_value(ty, Some(op)).id;
        if let Some(held) = self.ir.get_op(op) {
            let mut held = held.copy();
            held.results.push(result);
            self.ir.put_op(op, held);
            self.report_op(op);
        }
        result
    }

    /// Inserts `op` into `block` at `index`, recording the new parent.
    pub fn insert_op(&mut self, block: BlockId, index: usize, op: OpId)
        requires
            old(self).inv(),
            old(self)@.ir.op(op) is Some,
            old(self)@.ir.block(block) is Some ==> index <= old(self)@.ir.block(
                block,
            )->0.operations.len(),
        ensures
            final(self).inv(),
            final(self)@ == old(self)@.with_op_in_block(
                block,
                old(self)@.ir.block(block)->0.operations.insert(index as int, op),
                op,
            ),
    {
        if let Some(held) = self.ir.get_block(block) {
            let mut held = held.copy();
            held.operations.insert(index, op);
            self.ir.put_block(block, held);
        }
        self.place_op(op, Some(Parent::Block(block)));
        self.report_block(block);
    }

    /// Inserts `op` after everything `block` currently holds.
    pub fn append_op(&mut self, block: BlockId, op: OpId)
        requires
            old(self).inv(),
            old(self)@.ir.op(op) is Some,
        ensures
            final(self).inv(),
            final(self)@ == old(self)@.with_op_in_block(
                block,
                old(self)@.ir.block(block)->0.operations.push(op),
                op,
            ),
    {
        if let Some(held) = self.ir.get_block(block) {
            let mut held = held.copy();
            held.operations.push(op);
            self.ir.put_block(block, held);
        }
        self.place_op(op, Some(Parent::Block(block)));
        self.report_block(block);
    }

    /// Puts `new_op` where `block` holds `old_op`. Answers whether it held it.
    pub fn replace_op_in_block(&mut self, block: BlockId, old_op: OpId, new_op: OpId) -> (r: bool)
        requires
            old(self).inv(),
            old(self)@.ir.op(new_op) is Some,
        ensures
            final(self).inv(),
            r == (old(self)@.ir.block(block) is Some && first_position(
                old(self)@.ir.block(block)->0.operations,
                old_op,
            ) is Some),
            !r ==> final(self)@ == old(self)@,
            r ==> final(self)@ == old(self)@.with_op_replaced(
                block,
                first_position(old(self)@.ir.block(block)->0.operations, old_op)->0,
                old_op,
                new_op,
            ),
    {
        let mut held: Block = match self.ir.get_block(block) {
            Some(b) => b.copy(),
            None => {
                return false;
            },
        };
        match op_position(&held.operations, old_op) {
            None => false,
            Some(position) => {
                held.operations.set(position, new_op);
                self.ir.put_block(block, held);
                self.place_op(old_op, None);
                self.place_op(new_op, Some(Parent::Block(block)));
                self.report_block(block);
                true
            },
        }
    }

    /// Takes `op` out of `block` without erasing it. Answers whether the block
    /// held it.
    pub fn remove_op_from_block(&mut self, block: BlockId, op: OpId) -> (r: bool)
        requires
            old(self).inv(),
        ensures
            final(self).inv(),
            r == (old(self)@.ir.block(block) is Some && first_position(
                old(self)@.ir.block(block)->0.operations,
                op,
            ) is Some),
            !r ==> final(self)@ == old(self)@,
            r ==> final(self)@ == old(self)@.with_op_removed(
                block,
                first_position(old(self)@.ir.block(block)->0.operations, op)->0,
                op,
            ),
    {
        let mut held: Block = match self.ir.get_block(block) {
            Some(b) => b.copy(),
            None => {
                return false;
            },
        };
        match op_position(&held.operations, op) {
            None => false,
            Some(position) => {
                let _ = held.operations.remove(position);
                self.ir.put_block(block, held);
                self.place_op(op, None);
                self.report_block(block);
                true
            },
        }
    }

    /// Sets (or replaces) a named attribute of a block.
    pub fn set_block_attr(&mut self, block: BlockId, name: &str, value: AttributeValue)
        requires
            old(self).inv(),
        ensures
            final(self).inv(),
            final(self)@ == old(self)@.with_block_attr(block, name@, value@),
    {
        if let Some(held) = self.ir.get_block(block) {
            let mut held = held.copy();
            set_attribute(&mut held.attributes, name, value);
            self.ir.put_block(block, held);
            self.report_block(block);
        }
    }

    /// Chooses another order for the operations a live block holds.
    pub fn set_block_ops(&mut self, block: BlockId, ops: Vec<OpId>)
        requires
            old(self).inv(),
            old(self)@.ir.block(block) is Some,
            ops@.to_multiset() == old(self)@.ir.block(block)->0.operations.to_multiset(),
        ensures
            final(self).inv(),
            final(self)@ == old(self)@.with_block_ops(block, ops@),
    {
        let mut held: Block = self.ir.get_block(block).unwrap().copy();
        held.operations = ops;
        self.ir.put_block(block, held);
        self.report_block(block);
    }

    /// Puts `block` after the blocks of the ordered `region`.
    pub fn add_block_to_region(&mut self, region: RegionId, block: BlockId)
        requires
            old(self).inv(),
            old(self)@.ir.block(block) is Some,
            old(self)@.ir.region(region) is Some,
            old(self)@.ir.region(region)->0.body is Blocks,
        ensures
            final(self).inv(),
            final(self)@ == old(self)@.with_block_in_region(region, block),
    {
        let mut held: Region = self.ir.get_region(region).unwrap().copy();
        let mut blocks: Vec<BlockId> = match &held.body {
            RegionBody::Blocks(blocks) => copy_list(blocks),
            RegionBody::Nodes { .. } => Vec::new(),
        };
        blocks.push(block);
        held.body = RegionBody::Blocks(blocks);
        self.ir.put_region(region, held);
        let mut one: Vec<BlockId> = Vec::new();
        one.push(block);
        assert(one@ =~= seq![block]);
        self.place_blocks(&one, Some(region));
        self.report_region(region);
    }

    /// Takes `block` out of the ordered `region`. Answers whether the region
    /// held it.
    pub fn remove_block_from_region(&mut self, region: RegionId, block: BlockId) -> (r: bool)
        requires
            old(self).inv(),
            old(self)@.ir.region(region) is Some ==> old(self)@.ir.region(region)->0.body is Blocks,
        ensures
            final(self).inv(),
            r == (old(self)@.ir.region(region) is Some && first_position(
                old(self)@.ir.region(region)->0.body->Blocks_0,
                block,
            ) is Some),
            !r ==> final(self)@ == old(self)@,
            r ==> ({
                let held = old(self)@.ir.region(region)->0;
                let blocks = held.body->Blocks_0;
                let at = first_position(blocks, block)->0;
                let placed = old(self)@.ir.put_region(
                    region,
                    RegionView { body: BodyView::Blocks(blocks.remove(at)), ..held },
                );
                final(self)@ == old(self)@.with_ir(
                    blocks_placed(placed, seq![block], None, 1),
                ).reported_region(region)
            }),
    {
        let mut held: Region = match self.ir.get_region(region) {
            Some(r) => r.copy(),
            None => {
                return false;
            },
        };
        let mut blocks: Vec<BlockId> = match &held.body {
            RegionBody::Blocks(blocks) => copy_list(blocks),
            RegionBody::Nodes { .. } => Vec::new(),
        };
        match block_position(&blocks, block) {
            None => false,
            Some(position) => {
                let _ = blocks.remove(position);
                held.body = RegionBody::Blocks(blocks);
                self.ir.put_region(region, held);
                let mut one: Vec<BlockId> = Vec::new();
                one.push(block);
                assert(one@ =~= seq![block]);
                self.place_blocks(&one, None);
                self.report_region(region);
                true
            },
        }
    }
}

} // verus!

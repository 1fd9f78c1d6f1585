//! What makes one operation valid: what it is declared as, how its regions end,
//! and what its kind objects to.
use vstd::prelude::*;
use crate::access::str_attr;
use crate::access::type_attr;
use crate::access::uint_attr;
use crate::binding::ids_of;
use crate::binding::operand_segments;
use crate::binding::segments;
use crate::binding::sizes_fit;
use crate::binding::Carrier;
use crate::context::Context;
use crate::context::ContextView;
use crate::context::OpHandle;
use crate::dialects::builtin::arith::BitcastOp;
use crate::dialects::builtin::control::BranchOp;
use crate::dialects::builtin::control::CondBranchOp;
use crate::dialects::builtin::func_op::FuncOp;
use crate::dialects::builtin::global::GlobalOp;
use crate::dialects::builtin::tuple::MakeTupleOp;
use crate::dialects::builtin::tuple::TupleGetOp;
use crate::dialects::definitions::definition;
use crate::dialects::definitions::definition_of;
use crate::dialects::fp::bits::ClassifyOp;
use crate::dialects::func::call::CallOp;
use crate::dialects::func::func_op::port_types_of;
use crate::dialects::ptr::CmpOp;
use crate::dialects::ptr::LoadOp;
use crate::dialects::ptr::MemcpyOp;
use crate::dialects::ptr::MemsetOp;
use crate::dialects::ptr::StoreOp;
use crate::dialects::scf::nodes::ForOp;
use crate::dialects::scf::ordered::OrderedForOp;
use crate::dialects::state::JoinOp;
use crate::dialects::state::SplitOp;
use crate::error::either;
use crate::error::first_failure;
use crate::error::first_failure_stays;
use crate::error::invalid;
use crate::error::verdict;
use crate::error::Error;
use crate::ids::BlockId;
use crate::ids::OpId;
use crate::ids::RegionId;
use crate::ids::ValueId;
use crate::interfaces::Interface;
use crate::interp::run::all_typed;
use crate::ir::BodyView;
use crate::layout::DataLayout;
use crate::schema::AttrSchema;
use crate::schema::AttrSchemaView;
use crate::schema::OpDefSpec;
use crate::schema::OpDefView;
use crate::ty::Type;
use crate::verify::attribute_failure;
use crate::verify::attributes_failure;
use crate::verify::opdef_failure;
use crate::verify::verify_opdef_attributes;
use crate::verify::verify_opdef_operands;

verus! {

/// Why `op` is not what `def` declares, its attributes coming last.
pub open spec fn definition_failure(
    context: ContextView,
    op: OpId,
    name: Seq<char>,
    def: OpDefView,
) -> Option<Seq<char>> {
    either(
        opdef_failure(context, op, name, def),
        missing_attribute(context, op, name, def.attributes, def.attributes.len() as int),
    )
}

/// Why `op` does not hold one of the first `n` of `attributes`.
pub open spec fn missing_attribute(
    context: ContextView,
    op: OpId,
    name: Seq<char>,
    attributes: Seq<AttrSchemaView>,
    n: int,
) -> Option<Seq<char>>
    decreases n,
{
    if n <= 0 {
        None
    } else {
        either(
            missing_attribute(context, op, name, attributes, n - 1),
            attribute_failure(context, op, name, attributes[n - 1]),
        )
    }
}

proof fn same_attributes(
    context: ContextView,
    op: OpId,
    name: Seq<char>,
    specs: Seq<AttrSchema>,
    n: int,
)
    requires
        n <= specs.len(),
    ensures
        attributes_failure(context, op, name, specs, n) == missing_attribute(
            context,
            op,
            name,
            specs.map_values(|a: AttrSchema| a@),
            n,
        ),
    decreases n,
{
    if n > 0 {
        same_attributes(context, op, name, specs, n - 1);
    }
}

fn verify_definition(
    context: &Context,
    op: &OpHandle,
    name: &str,
    def: &OpDefSpec,
) -> (r: Result<(), Error>)
    requires
        context.inv(),
        context@.sound(),
        context@.ir.op(op.id) is Some,
        def@.wf(),
    ensures
        verdict(r, definition_failure(context@, op.id, name@, def@)),
{
    match verify_opdef_operands(context, op, name, def) {
        Ok(_) => {},
        Err(e) => {
            return Err(e);
        },
    }
    let attributes = &def.schema.attributes;
    proof {
        same_attributes(context@, op.id, name@, attributes@, attributes@.len() as int);
    }
    verify_opdef_attributes(context, op, name, attributes)
}
impl ContextView {
    /// Why a block does not end as one has to.
    pub open spec fn ending_failure(self, block: BlockId) -> Option<Seq<char>> {
        let ops = self.ir.block(block)->0.operations;
        if ops.len() > 0 && self.ir.op(ops.last()) is Some && self.has_interface(
            ops.last(),
            Interface::Terminator,
        ) {
            None
        } else {
            Some("every basic block must end with a terminator"@)
        }
    }

    /// Why a region is wrong. An unordered body holds no block that could end.
    pub open spec fn region_failure(self, region: RegionId) -> Option<Seq<char>> {
        match self.ir.region(region)->0.body {
            BodyView::Nodes(_, _, _) => None,
            BodyView::Blocks(blocks) => if blocks.len() == 0 {
                Some("a region must have at least one basic block"@)
            } else {
                first_failure(|i: int| self.ending_failure(blocks[i]), blocks.len() as int)
            },
        }
    }

    /// Why one of the regions of `op` is wrong.
    pub open spec fn regions_failure(self, op: OpId) -> Option<Seq<char>> {
        let regions = self.ir.op(op)->0.regions;
        first_failure(|i: int| self.region_failure(regions[i]), regions.len() as int)
    }

    /// Why `op` is not what it is declared as, where this library declares it.
    pub open spec fn declared_failure(self, op: OpId) -> Option<Seq<char>> {
        match definition(self.identity(op)) {
            Some(def) => either(
                definition_failure(self, op, self.identity(op).1, def),
                self.regions_failure(op),
            ),
            None => None,
        }
    }
}

fn verify_ending(context: &Context, block: BlockId) -> (r: Result<(), Error>)
    requires
        context.inv(),
        context@.sound(),
        context@.ir.block(block) is Some,
    ensures
        verdict(r, context@.ending_failure(block)),
{
    let ops = &context.block_ref(block).operations;
    if ops.len() > 0 {
        let last = ops[ops.len() - 1];
        if context.has_operation(last) {
            assert(context@.op_sound(last));
            if context.has_interface(last, Interface::Terminator) {
                return Ok(());
            }
        }
    }
    Err(invalid("every basic block must end with a terminator"))
}

/// Checks that a region has a block, and that every block of it ends with a
/// terminator.
pub fn verify_region(context: &Context, region: RegionId) -> (r: Result<(), Error>)
    requires
        context.inv(),
        context@.sound(),
        context@.ir.region(region) is Some,
    ensures
        verdict(r, context@.region_failure(region)),
{
    if context.region_is_nodes(region) {
        return Ok(());
    }
    let blocks = context.region_block_ids(region);
    if blocks.len() == 0 {
        return Err(invalid("a region must have at least one basic block"));
    }
    let ghost at = |i: int| context@.ending_failure(blocks@[i]);
    let mut i: usize = 0;
    while i < blocks.len()
        invariant
            context.inv(),
            context@.sound(),
            i <= blocks.len(),
            at == (|i: int| context@.ending_failure(blocks@[i])),
            context@.ir.region(region) is Some,
            context@.ir.region(region)->0.body == BodyView::Blocks(blocks@),
            first_failure(at, i as int) is None,
        decreases blocks.len() - i,
    {
        proof {
            assert(context@.region_sound(region));
            assert(context@.ir.block(blocks@[i as int]) is Some);
            assert(at(i as int) == context@.ending_failure(blocks@[i as int]));
        }
        if let Err(e) = verify_ending(context, blocks[i]) {
            proof {
                first_failure_stays(at, i + 1, blocks.len() as int);
            }
            return Err(e);
        }
        i += 1;
    }
    Ok(())
}

fn verify_regions(context: &Context, op: OpId) -> (r: Result<(), Error>)
    requires
        context.inv(),
        context@.sound(),
        context@.ir.op(op) is Some,
    ensures
        verdict(r, context@.regions_failure(op)),
{
    let regions = context.regions_of(op);
    let ghost at = |i: int| context@.region_failure(regions@[i]);
    let mut i: usize = 0;
    while i < regions.len()
        invariant
            context.inv(),
            context@.sound(),
            context@.ir.op(op) is Some,
            regions@ == context@.ir.op(op)->0.regions,
            i <= regions.len(),
            at == (|i: int| context@.region_failure(regions@[i])),
            first_failure(at, i as int) is None,
        decreases regions.len() - i,
    {
        proof {
            assert(context@.op_sound(op));
            assert(at(i as int) == context@.region_failure(regions@[i as int]));
        }
        if let Err(e) = verify_region(context, regions[i]) {
            proof {
                first_failure_stays(at, i + 1, regions.len() as int);
            }
            return Err(e);
        }
        i += 1;
    }
    Ok(())
}

/// Checks `op` against what it is declared as: its operands and results, its
/// attributes, and then its regions.
pub fn verify_declared(context: &Context, op: &OpHandle) -> (r: Result<(), Error>)
    requires
        context.inv(),
        context@.sound(),
        context@.ir.op(op.id) is Some,
    ensures
        verdict(r, context@.declared_failure(op.id)),
{
    assert(context@.op_sound(op.id));
    let (dialect, name) = context.op_identity(op.id);
    match definition_of(dialect, name) {
        Some(def) => {
            if let Err(e) = verify_definition(context, op, name, &def) {
                return Err(e);
            }
            verify_regions(context, op.id)
        },
        None => Ok(()),
    }
}

/// The kinds of operations with a check of their own.
#[derive(Debug, Clone, Copy, PartialEq, Eq, Structural)]
pub enum Check {
    Bitcast,
    Call,
    Classify,
    Cmp,
    For,
    Func,
    Global,
    Join,
    Load,
    MakeTuple,
    Memcpy,
    Memset,
    OrderedFor,
    Split,
    Store,
    TupleGet,
}

impl ContextView {
    /// The check of its own that `op` has, if any.
    pub open spec fn check(self, op: OpId) -> Option<Check> {
        let identity = self.identity(op);
        if identity == ("builtin"@, "bitcast"@) {
            Some(Check::Bitcast)
        } else if identity == ("builtin"@, "global"@) {
            Some(Check::Global)
        } else if identity == ("builtin"@, "make_tuple"@) {
            Some(Check::MakeTuple)
        } else if identity == ("builtin"@, "tuple_get"@) {
            Some(Check::TupleGet)
        } else if identity == ("fp"@, "classify"@) {
            Some(Check::Classify)
        } else if identity == ("func"@, "call"@) {
            Some(Check::Call)
        } else if identity == ("func"@, "func"@) {
            Some(Check::Func)
        } else if identity == ("ptr"@, "cmp"@) {
            Some(Check::Cmp)
        } else if identity == ("ptr"@, "load"@) {
            Some(Check::Load)
        } else if identity == ("ptr"@, "store"@) {
            Some(Check::Store)
        } else if identity == ("ptr"@, "memcpy"@) {
            Some(Check::Memcpy)
        } else if identity == ("ptr"@, "memset"@) {
            Some(Check::Memset)
        } else if identity == ("scf"@, "for"@) {
            Some(Check::For)
        } else if identity == ("scf"@, "ordered_for"@) {
            Some(Check::OrderedFor)
        } else if identity == ("state"@, "join"@) {
            Some(Check::Join)
        } else if identity == ("state"@, "split"@) {
            Some(Check::Split)
        } else {
            None
        }
    }

    /// Whether `op` has what its own check reads.
    pub open spec fn check_ready(self, op: OpId, check: Check) -> bool {
        let o = self.ir.op(op)->0;
        match check {
            Check::Bitcast => o.operands.len() > 0 && o.results.len() > 0 && self.values_typed(
                o.operands,
            ) && self.values_typed(o.results),
            Check::Call => self.func_call_wf(op),
            Check::Classify => self.str_attr(op, "class"@) is Some,
            Check::Cmp => true,
            Check::For => self.for_wf(op),
            Check::Func => self.func_wf(op) && self.values_typed(ids_of(self.func_params(op))),
            Check::Global => self.str_attr(op, "sym_name"@) is Some,
            Check::Join => self.values_typed(o.results),
            Check::Load => self.memory_wf(op, 1, 1),
            Check::MakeTuple => o.results.len() > 0 && self.values_typed(o.results)
                && self.values_typed(o.operands),
            Check::Memcpy => self.memory_wf(op, 3, 0),
            Check::Memset => self.memory_wf(op, 3, 0) && self.types[self.type_of(
                o.operands[1],
            ).0 as int] is Integer && self.types[self.type_of(o.operands[2]).0 as int] is Integer,
            Check::OrderedFor => self.ordered_for_wf(op),
            Check::Split => self.values_typed(o.results),
            Check::Store => self.memory_wf(op, 2, 0),
            Check::TupleGet => o.operands.len() > 0 && o.results.len() > 0 && self.values_typed(
                o.results,
            ) && self.values_typed(o.operands) && self.uint_attr(op, "index"@) is Some,
        }
    }

    /// What the own check of `op` objects to, an index being `index` bits wide where a
    /// layout says so.
    pub open spec fn check_failure(self, op: OpId, check: Check, index: Option<u32>) -> Option<
        Seq<char>,
    > {
        let o = self.ir.op(op)->0;
        match check {
            Check::Bitcast => self.bitcast_failure(op, index),
            Check::Call => self.func_call_failure(op),
            Check::Classify => self.class_failure(op),
            Check::Cmp => self.address_failure(op),
            Check::For => self.for_failure(op),
            Check::Func => self.func_failure(op),
            Check::Global => self.global_failure(op),
            Check::Join => if o.operands.len() == 0 {
                Some("state.join merges at least one state"@)
            } else {
                self.states_failure(op, 1)
            },
            Check::Load => self.moved_function_failure(o.results[0], "load"@),
            Check::MakeTuple => self.make_tuple_failure(op),
            Check::Memcpy => self.copy_failure(op),
            Check::Memset => self.fill_failure(op),
            Check::OrderedFor => self.ordered_for_failure(op),
            Check::Split => if o.results.len() == 0 {
                Some("state.split names at least one chain"@)
            } else {
                self.states_failure(op, o.results.len())
            },
            Check::Store => self.moved_function_failure(o.operands[0], "store"@),
            Check::TupleGet => self.tuple_get_failure(op),
        }
    }

    /// What the kind of `op` objects to. One that lacks what its check reads is wrong
    /// too.
    pub open spec fn custom_failure(self, op: OpId, index: Option<u32>) -> Option<Seq<char>> {
        match self.check(op) {
            Some(check) => if self.check_ready(op, check) {
                self.check_failure(op, check, index)
            } else {
                Some("an operation lacks what its verifier reads"@)
            },
            None => None,
        }
    }

    /// Why `op` is wrong by itself: what it is declared as comes first, operands before
    /// attributes before regions, then the check of its own, then `complaint`, which is
    /// what else is known of it.
    pub open spec fn own_failure(
        self,
        op: OpId,
        index: Option<u32>,
        complaint: Option<Seq<char>>,
    ) -> Option<Seq<char>> {
        either(
            self.declared_failure(op),
            either(self.custom_failure(op, index), complaint),
        )
    }
}

/// The width of an index where a layout says so.
pub open spec fn index_bits_of(layout: Option<&DataLayout>) -> Option<u32> {
    match layout {
        Some(l) => l.index_bits(),
        None => None,
    }
}

fn check_of(context: &Context, op: &OpHandle) -> (r: Option<Check>)
    requires
        context.inv(),
        context@.readable(op.id),
    ensures
        r == context@.check(op.id),
{
    if op.is_name(context, "builtin", "bitcast") {
        Some(Check::Bitcast)
    } else if op.is_name(context, "builtin", "global") {
        Some(Check::Global)
    } else if op.is_name(context, "builtin", "make_tuple") {
        Some(Check::MakeTuple)
    } else if op.is_name(context, "builtin", "tuple_get") {
        Some(Check::TupleGet)
    } else if op.is_name(context, "fp", "classify") {
        Some(Check::Classify)
    } else if op.is_name(context, "func", "call") {
        Some(Check::Call)
    } else if op.is_name(context, "func", "func") {
        Some(Check::Func)
    } else if op.is_name(context, "ptr", "cmp") {
        Some(Check::Cmp)
    } else if op.is_name(context, "ptr", "load") {
        Some(Check::Load)
    } else if op.is_name(context, "ptr", "store") {
        Some(Check::Store)
    } else if op.is_name(context, "ptr", "memcpy") {
        Some(Check::Memcpy)
    } else if op.is_name(context, "ptr", "memset") {
        Some(Check::Memset)
    } else if op.is_name(context, "scf", "for") {
        Some(Check::For)
    } else if op.is_name(context, "scf", "ordered_for") {
        Some(Check::OrderedFor)
    } else if op.is_name(context, "state", "join") {
        Some(Check::Join)
    } else if op.is_name(context, "state", "split") {
        Some(Check::Split)
    } else {
        None
    }
}

fn memory_ready(context: &Context, op: OpId, operands: usize, results: usize) -> (r: bool)
    requires
        context.inv(),
        context@.sound(),
        context@.ir.op(op) is Some,
    ensures
        r == context@.memory_wf(op, operands as nat, results as nat),
{
    assert(context@.op_sound(op));
    let deps = context.op_dep_counts(op);
    context.operands_of(op).len() - deps.0 >= operands && context.results_of(op).len() - deps.1
        >= results && all_typed(context, context.operands_of(op)) && all_typed(
        context,
        context.results_of(op),
    )
}

fn is_integer(context: &Context, value: ValueId) -> (r: bool)
    requires
        context.inv(),
        context@.sound(),
        context@.ir.value(value) is Some,
    ensures
        r == (context@.types[context@.type_of(value).0 as int] is Integer),
{
    assert(context@.value_sound(value));
    match context.get_type_data(context.get_value(value).ty) {
        Type::Integer(_) => true,
        _ => false,
    }
}

fn latch_ready(context: &Context, body: RegionId) -> (r: bool)
    requires
        context.inv(),
        context@.sound(),
        context@.ir.region(body) is Some,
    ensures
        r == context@.latch_wf(body),
{
    proof {
        assert(context@.region_sound(body));
        let blocks = context@.blocks_of(body);
        if blocks.len() > 0 {
            assert(context@.block_sound(blocks[0]));
            assert(context@.ir.block(blocks[0]) is Some);
        }
        if let Some(op) = context@.latch(body) {
            assert(context@.op_sound(op));
        }
    }
    if context.region_is_nodes(body) {
        return true;
    }
    let blocks = context.region_block_ids(body);
    if blocks.len() == 0 {
        return true;
    }
    let ops = &context.block_ref(blocks[0]).operations;
    if ops.len() == 0 {
        return true;
    }
    let last = ops[ops.len() - 1];
    assert(context@.ir.op(ops@[ops@.len() - 1]) is Some);
    all_typed(context, context.operands_of(last))
}

fn for_ready(context: &Context, op: OpId) -> (r: bool)
    requires
        context.inv(),
        context@.sound(),
        context@.ir.op(op) is Some,
        context@.is_op(op, "scf"@, "for"@),
    ensures
        r == context@.for_wf(op),
{
    proof {
        reveal_strlit("for");
        reveal_strlit("loop");
        assert("for"@.len() == 3 && "loop"@.len() == 4);
        assert(context@.carrier(op) == Some(Carrier::For));
        assert(context@.op_sound(op));
    }
    if !sizes_fit(context, op) {
        return false;
    }
    let groups = operand_segments(context, op, 4);
    let ghost pairs = segments(context@.ir.op(op)->0.attributes, 4);
    if groups.len() < 4 {
        return false;
    }
    proof {
        assert(pairs[0] == crate::binding::as_pair(groups@[0]));
        assert(pairs[1] == crate::binding::as_pair(groups@[1]));
        assert(pairs[2] == crate::binding::as_pair(groups@[2]));
        assert(pairs[3] == crate::binding::as_pair(groups@[3]));
    }
    let n: usize = context.operands_of(op).len();
    let (start, end): (usize, usize) = (groups[0].start, groups[1].end);
    if !(start < end && end <= n && groups[2].start < n && groups[3].start < n) {
        return false;
    }
    let regions = context.regions_of(op);
    if regions.len() == 0 {
        return false;
    }
    assert(context@.ir.region(regions@[0]) is Some && context@.region_sound(regions@[0]));
    all_typed(context, context.operands_of(op)) && latch_ready(context, regions[0])
}

fn func_ready(context: &Context, op: OpId) -> (r: bool)
    requires
        context.inv(),
        context@.sound(),
        context@.ir.op(op) is Some,
    ensures
        r == (context@.func_wf(op) && context@.values_typed(ids_of(context@.func_params(op)))),
{
    assert(context@.op_sound(op));
    let results = context.results_of(op);
    if results.len() == 0 || !context.has_value(results[0]) || str_attr(
        context,
        op,
        "sym_name",
    ).is_none() {
        return false;
    }
    assert(context@.value_sound(results@[0]));
    let known: usize = context.type_count();
    match type_attr(context, op, "ret_type") {
        Some(ty) => {
            if ty.0 as usize >= known {
                return false;
            }
        },
        None => {
            return false;
        },
    }
    let regions = context.regions_of(op);
    if regions.len() == 0 {
        return false;
    }
    let body = regions[0];
    assert(context@.ir.region(regions@[0]) is Some && context@.region_sound(regions@[0]));
    if !all_typed(context, &context.region_results(body)) {
        return false;
    }
    let ports = crate::dialects::func::func_op::value_arguments(&context.region_ports(body));
    let ghost ids = ids_of(ports@);
    let ghost types = port_types_of(ports@);
    assert(ports@ == context@.func_params(op));
    let mut i: usize = 0;
    while i < ports.len()
        invariant
            context.inv(),
            context@.sound(),
            i <= ports.len(),
            known == context@.types.len(),
            ids == ids_of(ports@),
            types == port_types_of(ports@),
            ports@ == context@.func_params(op),
            forall|k: int| 0 <= k < i ==> (#[trigger] types[k]).0 < context@.types.len(),
            forall|k: int|
                0 <= k < i ==> context@.ir.value(#[trigger] ids[k]) is Some
                    && context@.value_sound(ids[k]),
        decreases ports.len() - i,
    {
        assert(types[i as int] == ports@[i as int].ty);
        assert(ids[i as int] == ports@[i as int].id);
        assert(context@.value_sound(ids[i as int]));
        if ports[i].ty.0 as usize >= known || !context.has_value(ports[i].id) {
            return false;
        }
        i += 1;
    }
    true
}

fn is_ready(context: &Context, op: OpId, check: Check) -> (r: bool)
    requires
        context.inv(),
        context@.sound(),
        context@.ir.op(op) is Some,
        check == Check::For ==> context@.is_op(op, "scf"@, "for"@),
    ensures
        r == context@.check_ready(op, check),
{
    assert(context@.op_sound(op));
    let operands = context.operands_of(op);
    let results = context.results_of(op);
    match check {
        Check::Bitcast => operands.len() > 0 && results.len() > 0 && all_typed(context, operands)
            && all_typed(context, results),
        Check::Call => memory_ready(context, op, 1, 1),
        Check::Classify => str_attr(context, op, "class").is_some(),
        Check::Cmp => true,
        Check::For => for_ready(context, op),
        Check::Func => func_ready(context, op),
        Check::Global => str_attr(context, op, "sym_name").is_some(),
        Check::Join | Check::Split => all_typed(context, results),
        Check::Load => memory_ready(context, op, 1, 1),
        Check::MakeTuple => results.len() > 0 && all_typed(context, results) && all_typed(
            context,
            operands,
        ),
        Check::Memcpy => memory_ready(context, op, 3, 0),
        Check::Memset => {
            if !memory_ready(context, op, 3, 0) {
                return false;
            }
            assert(context@.ir.value(operands@[1]) is Some && context@.ir.value(
                operands@[2],
            ) is Some);
            is_integer(context, operands[1]) && is_integer(context, operands[2])
        },
        Check::OrderedFor => {
            if context.regions_of(op).len() == 0 || !memory_operands(context, op, 3) {
                return false;
            }
            let body = context.regions_of(op)[0];
            assert(context@.ir.region(context@.ir.op(op)->0.regions[0]) is Some);
            latch_ready(context, body)
        },
        Check::Store => memory_ready(context, op, 2, 0),
        Check::TupleGet => operands.len() > 0 && results.len() > 0 && all_typed(context, results)
            && all_typed(context, operands) && uint_attr(context, op, "index").is_some(),
    }
}

fn memory_operands(context: &Context, op: OpId, operands: usize) -> (r: bool)
    requires
        context.inv(),
        context@.sound(),
        context@.ir.op(op) is Some,
    ensures
        r == (context@.value_operands(op).len() >= operands && context@.values_typed(
            context@.ir.op(op)->0.operands,
        )),
{
    assert(context@.op_sound(op));
    let deps = context.op_dep_counts(op);
    context.operands_of(op).len() - deps.0 >= operands && all_typed(
        context,
        context.operands_of(op),
    )
}

/// Checks what the kind of `op` objects to.
pub fn verify_custom(context: &Context, op: &OpHandle, layout: Option<&DataLayout>) -> (r: Result<
    (),
    Error,
>)
    requires
        context.inv(),
        context@.sound(),
        context@.ir.op(op.id) is Some,
    ensures
        verdict(r, context@.custom_failure(op.id, index_bits_of(layout))),
{
    assert(context@.op_sound(op.id));
    let check = match check_of(context, op) {
        Some(check) => check,
        None => {
            return Ok(());
        },
    };
    if !is_ready(context, op.id, check) {
        return Err(invalid("an operation lacks what its verifier reads"));
    }
    match check {
        Check::Bitcast => BitcastOp(*op).verify_impl(context, layout),
        Check::Call => CallOp(*op).verify_impl(context),
        Check::Classify => ClassifyOp(*op).verify_impl(context),
        Check::Cmp => CmpOp(*op).verify_impl(context),
        Check::For => ForOp(*op).verify_impl(context),
        Check::Func => crate::dialects::func::func_op::FuncOp(*op).verify_impl(context),
        Check::Global => GlobalOp(*op).verify_impl(context),
        Check::Join => JoinOp(*op).verify_impl(context),
        Check::Load => LoadOp(*op).verify_impl(context),
        Check::MakeTuple => MakeTupleOp(*op).verify_impl(context),
        Check::Memcpy => MemcpyOp(*op).verify_impl(context),
        Check::Memset => MemsetOp(*op).verify_impl(context),
        Check::OrderedFor => OrderedForOp(*op).verify_impl(context),
        Check::Split => SplitOp(*op).verify_impl(context),
        Check::Store => StoreOp(*op).verify_impl(context),
        Check::TupleGet => TupleGetOp(*op).verify_impl(context),
    }
}

/// Checks one operation: its operands, its attributes, its regions, and what its kind
/// objects to, in that order. `layout` is the one in scope, and `complaint` what else
/// is known to be wrong with the operation.
pub fn verify_op(
    context: &Context,
    op: &OpHandle,
    layout: Option<&DataLayout>,
    complaint: Option<&str>,
) -> (r: Result<(), Error>)
    requires
        context.inv(),
        context@.sound(),
        context@.ir.op(op.id) is Some,
    ensures
        verdict(
            r,
            context@.own_failure(
                op.id,
                index_bits_of(layout),
                match complaint {
                    Some(text) => Some(text@),
                    None => None,
                },
            ),
        ),
{
    if let Err(e) = verify_declared(context, op) {
        return Err(e);
    }
    if let Err(e) = verify_custom(context, op, layout) {
        return Err(e);
    }
    match complaint {
        Some(text) => Err(invalid(text)),
        None => Ok(()),
    }
}

impl BranchOp {
    /// Checks the branch.
    pub fn verify(&self, context: &Context) -> (r: Result<(), Error>)
        requires
            context.inv(),
            context@.sound(),
            context@.ir.op(self.0.id) is Some,
        ensures
            verdict(r, context@.own_failure(self.0.id, None, None)),
    {
        verify_op(context, &self.0, None, None)
    }
}

impl CondBranchOp {
    /// Checks the branch.
    pub fn verify(&self, context: &Context) -> (r: Result<(), Error>)
        requires
            context.inv(),
            context@.sound(),
            context@.ir.op(self.0.id) is Some,
        ensures
            verdict(r, context@.own_failure(self.0.id, None, None)),
    {
        verify_op(context, &self.0, None, None)
    }
}

impl FuncOp {
    /// Checks the function.
    pub fn verify(&self, context: &Context) -> (r: Result<(), Error>)
        requires
            context.inv(),
            context@.sound(),
            context@.ir.op(self.0.id) is Some,
        ensures
            verdict(r, context@.own_failure(self.0.id, None, None)),
    {
        verify_op(context, &self.0, None, None)
    }
}

} // verus!

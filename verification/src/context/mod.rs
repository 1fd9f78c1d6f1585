//! The overlay every reader and editor of the IR holds.
//!
//! A context is a committed base plus the edits made since. Every read resolves
//! those edits first, so an edit is visible to the next read; every edit lands
//! in the overlay, so nothing touches the base until [`Context::commit`] takes
//! it over. Ids are minted once and never move, so an id read before a commit
//! names the same entity after.
//!
//! The context also owns what is not IR: the dialects, the names of operations,
//! the types and the interface registrations.
pub mod edit_laws;
pub mod edits;
pub mod kept;
pub mod latching;
pub mod moved;
pub mod nesting;
pub mod nodes;
pub mod ports;
pub mod owned;
pub mod regions;
pub mod sound;
pub mod staging;
pub mod uses;

use vstd::prelude::*;
use crate::context::edits::first_position;
use crate::context::edits::first_position_at;
use crate::attributes::copy_attributes;
use crate::attributes::dict_lookup;
use crate::attributes::find_attribute;
use crate::attributes::named_views;
use crate::attributes::AttrView;
use crate::attributes::AttributeValue;
use crate::attributes::NamedAttribute;
use crate::backend::classes::RegClassId;
use crate::ids::state_type;
use crate::ids::BlockId;
use crate::ids::OpId;
use crate::ids::OpNameId;
use crate::ids::RegionId;
use crate::ids::TypeId;
use crate::ids::ValueId;
use crate::interfaces::Interface;
use crate::ir::copy_list;
use crate::ir::use_list;
use crate::ir::Block;
use crate::ir::BodyView;
use crate::ir::Ir;
use crate::ir::IrView;
use crate::ir::Parent;
use crate::ir::Region;
use crate::ir::RegionBody;
use crate::ir::Use;
use crate::ir::Value;
use crate::journal::enclosing;
use crate::journal::enclosing_op;
use crate::journal::revision_of;
use crate::journal::Journal;
use crate::journal::JournalView;
use crate::lists::ValueIds;
use crate::lists::MAX_IDS;
use crate::overlay::OverlayCensus;
use crate::overlay::ERASED;
use crate::text::same;
use crate::ty::interned;
use crate::ty::table_wf;
use crate::ty::type_text;
use crate::ty::Type;
use crate::ty::TypeTable;
use crate::ty::TypeView;

verus! {

/// A context: the IR, its edits, and the registrations beside it.
pub struct Context {
    ir: Ir,
    journal: Journal,
    /// Structural version per op as of the last commit; the overlay's
    /// revisions add to it.
    versions: Vec<u32>,
    /// Which overlay this is: bumped by every commit and discard, so a handle
    /// to an entity of a dropped overlay reads as stale.
    epoch: u32,
    types: TypeTable,
    names: Vec<(&'static str, &'static str)>,
    /// Erased op and the op that took its place, latest last.
    replaced: Vec<(OpId, OpId)>,
    /// Committed value and the value that answers for it since the last commit.
    /// Always one hop: a target is resolved when it is recorded.
    moved: Vec<(ValueId, ValueId)>,
    interfaces: Vec<(&'static str, &'static str, Interface)>,
    classes: Vec<RegClassId>,
}

/// What a context holds.
pub ghost struct ContextView {
    pub ir: IrView,
    pub journal: JournalView,
    pub versions: Seq<u32>,
    pub epoch: u32,
    pub types: Seq<TypeView>,
    pub names: Seq<(Seq<char>, Seq<char>)>,
    pub replaced: Seq<(OpId, OpId)>,
    pub moved: Seq<(ValueId, ValueId)>,
    pub interfaces: Seq<(Seq<char>, Seq<char>, Interface)>,
    pub classes: Seq<RegClassId>,
}

pub open spec fn name_view(name: (&'static str, &'static str)) -> (Seq<char>, Seq<char>) {
    (name.0@, name.1@)
}

pub open spec fn interface_view(entry: (&'static str, &'static str, Interface)) -> (
    Seq<char>,
    Seq<char>,
    Interface,
) {
    (entry.0@, entry.1@, entry.2)
}

/// The value that answers for `value`: the one it was moved to, or itself.
pub open spec fn resolved(moved: Seq<(ValueId, ValueId)>, value: ValueId) -> ValueId
    decreases moved.len(),
{
    if moved.len() == 0 {
        value
    } else if moved.last().0 == value {
        moved.last().1
    } else {
        resolved(moved.drop_last(), value)
    }
}

/// Whether moves take one hop: no value that answers for another was itself moved, and
/// none was moved twice.
pub open spec fn one_hop(moved: Seq<(ValueId, ValueId)>) -> bool {
    &&& forall|i: int| 0 <= i < moved.len() ==> (#[trigger] moved[i]).1.0 < u32::MAX
    &&& forall|i: int, j: int|
        0 <= i < moved.len() && 0 <= j < moved.len() ==> (#[trigger] moved[i]).1 != (
        #[trigger] moved[j]).0
    &&& forall|i: int, j: int|
        0 <= i < j < moved.len() ==> (#[trigger] moved[i]).0 != (#[trigger] moved[j]).0
}

/// The moves once `target` answers for `value` and for what `value` answered for,
/// where `value` is one of the first `base`, which are committed.
pub open spec fn moved_to(
    moved: Seq<(ValueId, ValueId)>,
    base: nat,
    value: ValueId,
    target: ValueId,
) -> Seq<(ValueId, ValueId)> {
    if resolved(moved, value) != value {
        moved
    } else {
        let followed = moved.map_values(
            |m: (ValueId, ValueId)|
                if m.1 == value {
                    (m.0, target)
                } else {
                    m
                },
        );
        if value.0 < base {
            followed.push((value, target))
        } else {
            followed
        }
    }
}

impl ContextView {
    /// The value that answers for `value`.
    pub open spec fn resolve(self, value: ValueId) -> ValueId {
        resolved(self.moved, value)
    }

    /// Whether `new_value` can take the place of `old_value`: it does not answer by
    /// `old_value` already.
    pub open spec fn replaceable(self, old_value: ValueId, new_value: ValueId) -> bool {
        old_value == new_value || self.resolve(new_value) != old_value
    }
}

/// What answers for a value was not moved itself.
pub proof fn resolving_settles(moved: Seq<(ValueId, ValueId)>, value: ValueId)
    requires
        one_hop(moved),
    ensures
        resolved(moved, resolved(moved, value)) == resolved(moved, value),
        resolved(moved, value) == value || resolved(moved, value).0 < u32::MAX,
        forall|i: int| 0 <= i < moved.len() ==> (#[trigger] moved[i]).0 != resolved(moved, value),
        resolved(moved, value) != value ==> exists|i: int|
            0 <= i < moved.len() && #[trigger] moved[i] == (value, resolved(moved, value)),
{
    resolving_finds(moved, moved.len() as int, value);
    let target = resolved(moved, value);
    assert(moved.take(moved.len() as int) =~= moved);
    assert forall|i: int| 0 <= i < moved.len() implies (#[trigger] moved[i]).0 != target by {
        if target != value {
            let k = choose|k: int| 0 <= k < moved.len() && moved[k] == (value, target);
            assert(moved[k].1 != moved[i].0);
        }
    }
    resolving_finds(moved, moved.len() as int, target);
}

proof fn resolving_finds(moved: Seq<(ValueId, ValueId)>, n: int, value: ValueId)
    requires
        0 <= n <= moved.len(),
        one_hop(moved),
    ensures
        ({
            let r = resolved(moved.take(n), value);
            ||| r != value && r.0 < u32::MAX && exists|i: int|
                0 <= i < n && #[trigger] moved[i] == (value, r)
            ||| r == value && forall|i: int| 0 <= i < n ==> (#[trigger] moved[i]).0 != value
        }),
    decreases n,
{
    if n > 0 {
        resolving_finds(moved, n - 1, value);
        assert(moved.take(n).drop_last() =~= moved.take(n - 1));
        assert(moved.take(n).last() == moved[n - 1]);
        if moved[n - 1].0 == value {
            assert(moved[n - 1] == (value, moved[n - 1].1));
        }
    }
}

/// Moving a value keeps moves to one hop.
pub proof fn moving_keeps_one_hop(
    moved: Seq<(ValueId, ValueId)>,
    base: nat,
    value: ValueId,
    target: ValueId,
)
    requires
        one_hop(moved),
        target.0 < u32::MAX,
        target != value,
        resolved(moved, target) == target,
    ensures
        one_hop(moved_to(moved, base, value, target)),
{
    resolving_settles(moved, value);
    resolving_settles(moved, target);
    if resolved(moved, value) == value {
        let after = moved_to(moved, base, value, target);
        assert forall|i: int, j: int|
            0 <= i < after.len() && 0 <= j < after.len() implies (#[trigger] after[i]).1 != (
        #[trigger] after[j]).0 by {
            if i < moved.len() {
                assert(after[i].1 == moved[i].1 || after[i].1 == target);
            }
            if j < moved.len() {
                assert(after[j].0 == moved[j].0);
            }
        }
        assert forall|i: int, j: int| 0 <= i < j < after.len() implies (#[trigger] after[i]).0 != (
        #[trigger] after[j]).0 by {
            assert(after[i].0 == moved[i].0);
            if j < moved.len() {
                assert(after[j].0 == moved[j].0);
            }
        }
    }
}

/// Two counts together, or as many as the counter can hold.
pub open spec fn counted_together(a: u32, b: u32) -> u32 {
    if a + b > u32::MAX {
        u32::MAX
    } else {
        (a + b) as u32
    }
}

/// The entry of `list` at `i`, which is zero past its end.
pub open spec fn entry_or_zero(list: Seq<u32>, i: int) -> u32 {
    if 0 <= i < list.len() {
        list[i]
    } else {
        0
    }
}

/// `versions` with the bumps of `revision` added.
pub open spec fn folded(versions: Seq<u32>, revision: Seq<u32>) -> Seq<u32> {
    Seq::new(
        if versions.len() < revision.len() {
            revision.len()
        } else {
            versions.len()
        },
        |i: int| counted_together(entry_or_zero(versions, i), entry_or_zero(revision, i)),
    )
}

/// The bumps that move every advanced version past what it reached.
pub open spec fn passed(revision: Seq<u32>) -> Seq<u32> {
    revision.map_values(
        |bump: u32|
            if bump == 0 {
                0u32
            } else {
                counted_together(bump, 1)
            },
    )
}

/// The last replacement recorded for `id`.
pub open spec fn last_replacement(replaced: Seq<(OpId, OpId)>, id: OpId) -> Option<OpId>
    decreases replaced.len(),
{
    if replaced.len() == 0 {
        None
    } else if replaced.last().0 == id {
        Some(replaced.last().1)
    } else {
        last_replacement(replaced.drop_last(), id)
    }
}

impl ContextView {
    pub open spec fn with_ir(self, ir: IrView) -> Self {
        ContextView { ir, ..self }
    }

    /// The structural version of `op`: continuous across commits.
    pub open spec fn version(self, op: OpId) -> u32 {
        counted_together(entry_or_zero(self.versions, op.0 as int), revision_of(self.journal, op))
    }

    /// The name `op` is spelled by, and its dialect before it.
    pub open spec fn identity(self, op: OpId) -> (Seq<char>, Seq<char>) {
        self.names[self.ir.op(op)->0.name.0 as int]
    }

    pub open spec fn attr(self, op: OpId, name: Seq<char>) -> Option<AttrView> {
        match self.ir.op(op) {
            Some(o) => dict_lookup(o.attributes, name),
            None => None,
        }
    }

    pub open spec fn block_attr(self, block: BlockId, name: Seq<char>) -> Option<AttrView> {
        dict_lookup(self.ir.block(block)->0.attributes, name)
    }

    pub open spec fn has_interface(self, op: OpId, interface: Interface) -> bool {
        let (dialect, name) = self.identity(op);
        self.interfaces.contains((dialect, name, interface))
    }

    /// The type of the value `id`.
    pub open spec fn type_of(self, id: ValueId) -> TypeId {
        self.ir.value(id)->0.value.ty
    }

    /// Whether `id` is a live memory state.
    pub open spec fn is_state(self, id: ValueId) -> bool {
        self.ir.value(id) is Some && self.type_of(id) == state_type()
    }

    /// The values of `ids` that are memory states (or that are not), in order.
    pub open spec fn filtered(self, ids: Seq<ValueId>, states: bool) -> Seq<ValueId>
        decreases ids.len(),
    {
        if ids.len() == 0 {
            Seq::empty()
        } else if self.is_state(ids.last()) == states {
            self.filtered(ids.drop_last(), states).push(ids.last())
        } else {
            self.filtered(ids.drop_last(), states)
        }
    }

    /// The operations a region holds: those of its blocks in order, or its own.
    pub open spec fn region_ops(self, region: RegionId) -> Seq<OpId> {
        match self.ir.region(region) {
            Some(r) => match r.body {
                BodyView::Blocks(blocks) => self.block_ops(blocks),
                BodyView::Nodes(_, ops, _) => ops,
            },
            None => Seq::empty(),
        }
    }

    /// The operations of `blocks`, block by block.
    pub open spec fn block_ops(self, blocks: Seq<BlockId>) -> Seq<OpId>
        decreases blocks.len(),
    {
        if blocks.len() == 0 {
            Seq::empty()
        } else {
            self.block_ops(blocks.drop_last()) + match self.ir.block(blocks.last()) {
                Some(b) => b.operations,
                None => Seq::empty(),
            }
        }
    }

    /// The arguments of a region: its own ports, or those of its entry block.
    pub open spec fn region_ports(self, region: RegionId) -> Seq<Value> {
        match self.ir.region(region) {
            Some(r) => match r.body {
                BodyView::Blocks(blocks) => if blocks.len() > 0 {
                    match self.ir.block(blocks[0]) {
                        Some(b) => b.arguments,
                        None => Seq::empty(),
                    }
                } else {
                    Seq::empty()
                },
                BodyView::Nodes(ports, _, _) => ports,
            },
            None => Seq::empty(),
        }
    }

    /// The values an unordered region produces. An ordered one names none.
    pub open spec fn region_results(self, region: RegionId) -> Seq<ValueId> {
        match self.ir.region(region) {
            Some(r) => match r.body {
                BodyView::Blocks(_) => Seq::empty(),
                BodyView::Nodes(_, _, results) => results,
            },
            None => Seq::empty(),
        }
    }

    pub open spec fn is_nodes(self, region: RegionId) -> bool {
        match self.ir.region(region) {
            Some(r) => r.body is Nodes,
            None => false,
        }
    }
}

impl View for Context {
    type V = ContextView;

    closed spec fn view(&self) -> ContextView {
        ContextView {
            ir: self.ir@,
            journal: self.journal@,
            versions: self.versions@,
            epoch: self.epoch,
            types: self.types@,
            names: self.names@.map_values(|n: (&'static str, &'static str)| name_view(n)),
            replaced: self.replaced@,
            moved: self.moved@,
            interfaces: self.interfaces@.map_values(
                |e: (&'static str, &'static str, Interface)| interface_view(e),
            ),
            classes: self.classes@,
        }
    }
}

/// A reference to an operation: its id, and the epoch it was created in.
///
/// Reads go to the context's storage as they are asked for, so a handle always
/// answers with the operation as it stands now.
#[derive(Debug, Clone, Copy)]
pub struct OpHandle {
    pub id: OpId,
    pub generation: u32,
}

/// A reference to a basic block: its id, and the epoch it was created in.
#[derive(Debug, Clone, Copy)]
pub struct BlockHandle {
    pub id: BlockId,
    pub generation: u32,
}

/// A reference to a region: its id, and the epoch it was created in.
#[derive(Debug, Clone, Copy)]
pub struct RegionHandle {
    pub id: RegionId,
    pub generation: u32,
}

/// The operations of `ops` without repeats, in ascending order.
pub open spec fn ascending(ops: Seq<OpId>) -> bool {
    forall|i: int, j: int| 0 <= i < j < ops.len() ==> (#[trigger] ops[i]).0 < (#[trigger] ops[j]).0
}

/// Sorts `ops` and drops repeats.
pub fn sorted_unique(ops: &Vec<OpId>) -> (r: Vec<OpId>)
    ensures
        ascending(r@),
        forall|op: OpId| #[trigger] r@.contains(op) <==> ops@.contains(op),
{
    let mut r: Vec<OpId> = Vec::new();
    let mut i: usize = 0;
    while i < ops.len()
        invariant
            i <= ops.len(),
            ascending(r@),
            forall|op: OpId| #[trigger] r@.contains(op) <==> ops@.take(i as int).contains(op),
        decreases ops.len() - i,
    {
        let op = ops[i];
        let ghost before = r@;
        let mut at: usize = 0;
        while at < r.len() && r[at].0 < op.0
            invariant
                at <= r.len(),
                r@ == before,
                forall|k: int| 0 <= k < at ==> (#[trigger] r@[k]).0 < op.0,
            decreases r.len() - at,
        {
            at += 1;
        }
        let present = at < r.len() && r[at] == op;
        if !present {
            proof {
                assert forall|k: int| at <= k < before.len() implies op.0 < (#[trigger] before[k]).0 by {
                    if before[at as int].0 <= op.0 {
                        assert(before[at as int].0 == op.0);
                        assert(before[at as int] == op);
                    }
                    if k > at {
                        assert(before[at as int].0 < before[k].0);
                    }
                }
            }
            r.insert(at, op);
        }
        proof {
            let taken = ops@.take(i as int);
            let more = ops@.take(i + 1);
            assert(more =~= taken.push(op));
            assert forall|x: OpId| #[trigger] r@.contains(x) <==> more.contains(x) by {
                assert(more.contains(x) <==> taken.contains(x) || x == op) by {
                    if more.contains(x) {
                        let k = choose|k: int| 0 <= k < more.len() && more[k] == x;
                        if k < taken.len() {
                            assert(taken[k] == x);
                        }
                    }
                    if taken.contains(x) {
                        let k = choose|k: int| 0 <= k < taken.len() && taken[k] == x;
                        assert(more[k] == x);
                    }
                    if x == op {
                        assert(more[taken.len() as int] == x);
                    }
                }
                assert(before.contains(x) <==> taken.contains(x));
                if present {
                    assert(before[at as int] == op);
                } else {
                    assert(r@ =~= before.insert(at as int, op));
                    if r@.contains(x) {
                        let k = choose|k: int| 0 <= k < r@.len() && r@[k] == x;
                        if k < at {
                            assert(before[k] == x);
                        } else if k > at {
                            assert(before[k - 1] == x);
                        }
                    }
                    if before.contains(x) {
                        let k = choose|k: int| 0 <= k < before.len() && before[k] == x;
                        if k < at {
                            assert(r@[k] == x);
                        } else {
                            assert(r@[k + 1] == x);
                        }
                    }
                    if x == op {
                        assert(r@[at as int] == x);
                    }
                }
            }
        }
        i += 1;
    }
    assert(ops@.take(i as int) =~= ops@);
    r
}

impl Context {
    pub closed spec fn inv(&self) -> bool {
        &&& self.ir.inv()
        &&& table_wf(self.types@)
        &&& self.names.len() <= u32::MAX
        &&& self.epoch < ERASED
        &&& one_hop(self.moved@)
    }

    /// The IR of a well-formed context is well formed.
    pub proof fn inv_wf(&self)
        requires
            self.inv(),
        ensures
            self@.ir.wf(),
            table_wf(self@.types),
            self@.epoch < ERASED,
            self@.names.len() <= u32::MAX,
            one_hop(self@.moved),
    {
        self.ir.inv_wf();
    }

    /// A new empty context: only the memory state type is registered.
    pub fn new() -> (r: Self)
        ensures
            r.inv(),
            r@.ir.ops.now.len() == 0,
            r@.ir.values.now.len() == 0,
            r@.ir.blocks.now.len() == 0,
            r@.ir.regions.now.len() == 0,
            r@.ir.uses.now.len() == 0,
            r@.ir.discard() == r@.ir,
            r@.journal == JournalView::empty(),
            r@.versions == Seq::<u32>::empty(),
            r@.epoch == 0,
            r@.types == seq![TypeView::State],
            r@.names.len() == 0,
            r@.replaced.len() == 0,
            r@.moved.len() == 0,
            r@.interfaces.len() == 0,
            r@.classes.len() == 0,
    {
        let r = Context {
            ir: Ir::new(),
            journal: Journal::new(),
            versions: Vec::new(),
            epoch: 0,
            types: TypeTable::new(),
            names: Vec::new(),
            replaced: Vec::new(),
            moved: Vec::new(),
            interfaces: Vec::new(),
            classes: Vec::new(),
        };
        assert(r@.versions =~= Seq::<u32>::empty());
        r
    }

    /// The dense id of an op identity, minted on first sight.
    pub fn intern_op_name(&mut self, dialect: &'static str, name: &'static str) -> (id: OpNameId)
        requires
            old(self).inv(),
            old(self)@.names.len() < u32::MAX,
        ensures
            final(self).inv(),
            id.0 < final(self)@.names.len(),
            final(self)@.names[id.0 as int] == (dialect@, name@),
            first_position(final(self)@.names, (dialect@, name@)) == Some(id.0 as int),
            final(self)@ == (ContextView {
                names: if old(self)@.names.contains((dialect@, name@)) {
                    old(self)@.names
                } else {
                    old(self)@.names.push((dialect@, name@))
                },
                ..old(self)@
            }),
    {
        let ghost before = self@;
        let mut i: usize = 0;
        while i < self.names.len()
            invariant
                i <= self.names.len(),
                *self == *old(self),
                self.inv(),
                before == self@,
                before.names.len() == self.names.len(),
                before.names.len() < u32::MAX,
                forall|j: int| 0 <= j < i ==> before.names[j] != (dialect@, name@),
            decreases self.names.len() - i,
        {
            assert(before.names[i as int] == name_view(self.names[i as int]));
            if same(self.names[i].0, dialect) && same(self.names[i].1, name) {
                assert(before.names.contains((dialect@, name@)));
                proof {
                    first_position_at(before.names, (dialect@, name@), i as int);
                }
                return OpNameId(i as u32);
            }
            i += 1;
        }
        let id = OpNameId(self.names.len() as u32);
        self.names.push((dialect, name));
        assert(self@.names =~= before.names.push((dialect@, name@)));
        proof {
            first_position_at(self@.names, (dialect@, name@), id.0 as int);
        }
        id
    }

    /// An attribute under its name.
    pub fn named_attribute(&self, name: &str, value: AttributeValue) -> (r: NamedAttribute)
        ensures
            r@ == (name@, value@),
    {
        NamedAttribute::new(name, value)
    }

    /// Registers that operations of an identity make a promise.
    pub fn register_op_interface(
        &mut self,
        dialect: &'static str,
        op_name: &'static str,
        interface: Interface,
    )
        requires
            old(self).inv(),
        ensures
            final(self).inv(),
            final(self)@ == (ContextView {
                interfaces: old(self)@.interfaces.push((dialect@, op_name@, interface)),
                ..old(self)@
            }),
    {
        let ghost before = self@;
        self.interfaces.push((dialect, op_name, interface));
        assert(self@.interfaces =~= before.interfaces.push((dialect@, op_name@, interface)));
    }

    /// Registers a target's register classes, so a class can be found by name.
    pub fn register_reg_classes(&mut self, classes: &Vec<RegClassId>)
        requires
            old(self).inv(),
        ensures
            final(self).inv(),
            final(self)@ == (ContextView { classes: old(self)@.classes + classes@, ..old(self)@ }),
    {
        let ghost before = self@;
        let mut i: usize = 0;
        while i < classes.len()
            invariant
                i <= classes.len(),
                self.inv(),
                self@ == (ContextView {
                    classes: before.classes + classes@.take(i as int),
                    ..before
                }),
            decreases classes.len() - i,
        {
            let ghost here = self@;
            self.classes.push(classes[i]);
            assert(self@.classes =~= before.classes + classes@.take(i + 1));
            assert(self@ == (ContextView { classes: self@.classes, ..here }));
            i += 1;
        }
        assert(classes@.take(i as int) =~= classes@);
    }

    /// The register class called `name`, the one registered last where several
    /// are.
    pub fn resolve_reg_class(&self, name: &str) -> (r: Option<RegClassId>)
        requires
            self.inv(),
        ensures
            r is None ==> forall|i: int|
                0 <= i < self@.classes.len() ==> (#[trigger] self@.classes[i]).0.name@ != name@,
            r is Some ==> exists|i: int|
                0 <= i < self@.classes.len() && #[trigger] self@.classes[i] == r->0
                    && r.unwrap().0.name@ == name@ && forall|j: int|
                    i < j < self@.classes.len() ==> (#[trigger] self@.classes[j]).0.name@ != name@,
    {
        let mut i: usize = self.classes.len();
        while i > 0
            invariant
                i <= self.classes.len(),
                self@.classes == self.classes@,
                forall|j: int|
                    i <= j < self.classes.len() ==> (#[trigger] self@.classes[j]).0.name@ != name@,
            decreases i,
        {
            i -= 1;
            if same(self.classes[i].name(), name) {
                assert(self@.classes[i as int].0.name@ == name@);
                return Some(self.classes[i]);
            }
        }
        None
    }

    /// The overlay's own counts: what it created and copied.
    pub fn overlay_census(&self) -> (r: OverlayCensus)
        requires
            self.inv(),
        ensures
            r.local == crate::ir::capped(self@.ir.local_total()),
            r.shadows == crate::ir::capped(self@.ir.shadow_total()),
            r.use_deltas == crate::ir::capped(
                self@.ir.uses.local_records() + self@.ir.uses.shadow_records(),
            ),
    {
        self.ir.census()
    }

    // Epochs.

    /// Which overlay this is; advances at every commit.
    pub fn epoch(&self) -> (r: u32)
        ensures
            r == self@.epoch,
    {
        self.epoch
    }

    /// Whether `id` names an operation created in the current overlay, and not
    /// yet committed.
    pub fn is_pending_op(&self, id: OpId) -> (r: bool)
        requires
            self.inv(),
        ensures
            r == self@.ir.ops.pending(id.0),
    {
        self.ir.is_pending_op(id)
    }

    /// Whether `id` names a value created in the current overlay.
    pub fn is_pending_value(&self, id: ValueId) -> (r: bool)
        requires
            self.inv(),
        ensures
            r == self@.ir.values.pending(id.0),
    {
        self.ir.is_pending_value(id)
    }

    /// Whether the overlay holds any edit.
    pub fn has_pending_edits(&self) -> (r: bool)
        requires
            self.inv(),
        ensures
            !r <==> self@.ir.ops.touched == Set::<int>::empty() && self@.ir.values.touched == Set::<
                int,
            >::empty() && self@.ir.blocks.touched == Set::<int>::empty()
                && self@.ir.regions.touched == Set::<int>::empty(),
    {
        !self.ir.is_untouched()
    }

    /// Applies every edit made since the last commit to the base. Ids do not
    /// move, and no read answers differently.
    pub fn commit(&mut self)
        requires
            old(self).inv(),
            old(self)@.epoch + 1 < ERASED,
        ensures
            final(self).inv(),
            final(self)@ == (ContextView {
                ir: old(self)@.ir.commit(old(self)@.epoch),
                journal: JournalView::empty(),
                versions: folded(old(self)@.versions, old(self)@.journal.revision),
                epoch: (old(self)@.epoch + 1) as u32,
                replaced: Seq::empty(),
                moved: Seq::empty(),
                ..old(self)@
            }),
    {
        let ghost before = self@;
        self.ir.commit(self.epoch);
        let mut journal = Journal::new();
        std::mem::swap(&mut journal, &mut self.journal);
        self.fold_revisions(journal.revisions());
        self.replaced = Vec::new();
        self.moved = Vec::new();
        assert(self@.replaced =~= Seq::empty());
        assert(self@.moved =~= Seq::empty());
        self.epoch = self.epoch + 1;
    }

    /// Drops every edit made since the last commit. Every version the overlay
    /// advanced moves past what it reached, so nothing cached against the
    /// dropped state is reused.
    pub fn discard(&mut self)
        requires
            old(self).inv(),
            old(self)@.epoch + 1 < ERASED,
        ensures
            final(self).inv(),
            final(self)@ == (ContextView {
                ir: old(self)@.ir.discard(),
                journal: JournalView::empty(),
                versions: folded(old(self)@.versions, passed(old(self)@.journal.revision)),
                epoch: (old(self)@.epoch + 1) as u32,
                replaced: Seq::empty(),
                moved: Seq::empty(),
                ..old(self)@
            }),
    {
        let ghost before = self@;
        self.ir.discard();
        let mut journal = Journal::new();
        std::mem::swap(&mut journal, &mut self.journal);
        let revisions = journal.revisions();
        let mut past: Vec<u32> = Vec::new();
        let mut i: usize = 0;
        while i < revisions.len()
            invariant
                i <= revisions.len(),
                past.len() == i,
                forall|j: int|
                    0 <= j < i ==> #[trigger] past[j] == if revisions@[j] == 0 {
                        0u32
                    } else {
                        counted_together(revisions@[j], 1)
                    },
            decreases revisions.len() - i,
        {
            let bump: u32 = revisions[i];
            past.push(
                if bump == 0 {
                    0
                } else {
                    bump.saturating_add(1)
                },
            );
            i += 1;
        }
        assert(past@ =~= passed(before.journal.revision));
        self.fold_revisions(&past);
        self.replaced = Vec::new();
        self.moved = Vec::new();
        assert(self@.replaced =~= Seq::empty());
        assert(self@.moved =~= Seq::empty());
        self.epoch = self.epoch + 1;
    }

    fn fold_revisions(&mut self, revision: &Vec<u32>)
        requires
            old(self).inv(),
        ensures
            final(self).inv(),
            final(self)@ == (ContextView {
                versions: folded(old(self)@.versions, revision@),
                ..old(self)@
            }),
    {
        let ghost before = self@;
        let mut merged: Vec<u32> = Vec::new();
        let n: usize = if self.versions.len() < revision.len() {
            revision.len()
        } else {
            self.versions.len()
        };
        let mut i: usize = 0;
        while i < n
            invariant
                i <= n,
                *self == *old(self),
                before.versions == self.versions@,
                merged.len() == i,
                forall|j: int|
                    0 <= j < i ==> #[trigger] merged[j] == counted_together(
                        entry_or_zero(before.versions, j),
                        entry_or_zero(revision@, j),
                    ),
            decreases n - i,
        {
            let version: u32 = if i < self.versions.len() {
                self.versions[i]
            } else {
                0
            };
            let bump: u32 = if i < revision.len() {
                revision[i]
            } else {
                0
            };
            merged.push(version.saturating_add(bump));
            i += 1;
        }
        assert(merged@ =~= folded(before.versions, revision@));
        self.versions = merged;
    }

    /// Records that `old_op` was replaced by `new_op` in place, so a pipeline can
    /// follow its root across the swap.
    pub fn record_replaced_op(&mut self, old_op: OpId, new_op: OpId)
        requires
            old(self).inv(),
        ensures
            final(self).inv(),
            final(self)@ == (ContextView {
                replaced: old(self)@.replaced.push((old_op, new_op)),
                ..old(self)@
            }),
    {
        self.replaced.push((old_op, new_op));
    }

    /// The op that took `id`'s place in the current overlay, if a rewrite
    /// replaced it.
    pub fn replaced_op(&self, id: OpId) -> (r: Option<OpId>)
        ensures
            r == last_replacement(self@.replaced, id),
    {
        let mut i: usize = self.replaced.len();
        assert(self.replaced@.take(i as int) =~= self.replaced@);
        while i > 0
            invariant
                i <= self.replaced.len(),
                self@.replaced == self.replaced@,
                last_replacement(self@.replaced, id) == last_replacement(
                    self.replaced@.take(i as int),
                    id,
                ),
            decreases i,
        {
            let ghost here = self.replaced@.take(i as int);
            i -= 1;
            assert(here.drop_last() =~= self.replaced@.take(i as int));
            if self.replaced[i].0 == id {
                return Some(self.replaced[i].1);
            }
        }
        None
    }

    // Types.

    /// The id of `ty`, which is given one on first sight.
    pub fn get_type_id(&mut self, ty: Type) -> (id: TypeId)
        requires
            old(self).inv(),
            old(self)@.types.len() < u32::MAX,
            ty@.made_below(old(self)@.types.len() as int),
        ensures
            final(self).inv(),
            final(self)@ == (ContextView { types: interned(old(self)@.types, ty@), ..old(self)@ }),
            id.0 < final(self)@.types.len(),
            final(self)@.types[id.0 as int] == ty@,
            first_position(final(self)@.types, ty@) == Some(id.0 as int),
    {
        self.types.intern(ty)
    }

    /// The type `ty` names.
    pub fn get_type_data(&self, ty: TypeId) -> (r: &Type)
        requires
            self.inv(),
            ty.0 < self@.types.len(),
        ensures
            r@ == self@.types[ty.0 as int],
    {
        self.types.get(ty)
    }

    /// The type `ty` names, without its dialect, as it stands in the text.
    pub fn type_body_text(&self, ty: TypeId) -> (s: String)
        requires
            self.inv(),
            ty.0 < self@.types.len(),
        ensures
            s@ == crate::ty::type_body(self@.types, ty),
    {
        self.types.body(ty)
    }

    /// Prints the type `ty` names, with its dialect unless it is a builtin one.
    pub fn print_type(&self, ty: TypeId, fmt: &mut crate::ir_formatter::IRFormatter)
        requires
            self.inv(),
            ty.0 < self@.types.len(),
        ensures
            final(fmt)@ == old(fmt)@.written(type_text(self@.types, ty)),
    {
        let text = self.type_to_string(ty);
        fmt.write(text.as_str());
    }

    /// The type `ty` names, as it stands in the text.
    pub fn type_to_string(&self, ty: TypeId) -> (s: String)
        requires
            self.inv(),
            ty.0 < self@.types.len(),
        ensures
            s@ == type_text(self@.types, ty),
    {
        self.types.text(ty)
    }

    /// How many op identities were ever seen.
    pub fn name_count(&self) -> (n: usize)
        requires
            self.inv(),
        ensures
            n == self@.names.len(),
    {
        self.names.len()
    }

    /// How many types are interned.
    pub fn type_count(&self) -> (n: usize)
        requires
            self.inv(),
        ensures
            n == self@.types.len(),
    {
        self.types.len()
    }

    // Handles.

    /// The epoch `id` was created in, or [`ERASED`] for an id no live op has.
    pub fn op_generation(&self, id: OpId) -> (r: u32)
        requires
            self.inv(),
        ensures
            r == self@.ir.ops.generation(id.0, self@.epoch),
    {
        self.ir.op_generation(id, self.epoch)
    }

    pub fn block_generation(&self, id: BlockId) -> (r: u32)
        requires
            self.inv(),
        ensures
            r == self@.ir.blocks.generation(id.0, self@.epoch),
    {
        self.ir.block_generation(id, self.epoch)
    }

    pub fn region_generation(&self, id: RegionId) -> (r: u32)
        requires
            self.inv(),
        ensures
            r == self@.ir.regions.generation(id.0, self@.epoch),
    {
        self.ir.region_generation(id, self.epoch)
    }

    /// The handle naming the live operation `id`.
    pub fn get_op(&self, id: OpId) -> (h: OpHandle)
        requires
            self.inv(),
            self@.ir.op(id) is Some,
        ensures
            h.id == id,
            h.generation == self@.ir.ops.generation(id.0, self@.epoch),
    {
        OpHandle { id, generation: self.op_generation(id) }
    }

    /// The handle naming the live block `id`.
    pub fn get_block(&self, id: BlockId) -> (h: BlockHandle)
        requires
            self.inv(),
            self@.ir.block(id) is Some,
        ensures
            h.id == id,
            h.generation == self@.ir.blocks.generation(id.0, self@.epoch),
    {
        BlockHandle { id, generation: self.block_generation(id) }
    }

    /// The handle naming the live region `id`.
    pub fn get_region(&self, id: RegionId) -> (h: RegionHandle)
        requires
            self.inv(),
            self@.ir.region(id) is Some,
        ensures
            h.id == id,
            h.generation == self@.ir.regions.generation(id.0, self@.epoch),
    {
        RegionHandle { id, generation: self.region_generation(id) }
    }

    // Reads.

    pub fn has_operation(&self, id: OpId) -> (r: bool)
        requires
            self.inv(),
        ensures
            r == (self@.ir.op(id) is Some),
    {
        self.ir.get_op(id).is_some()
    }

    pub fn has_value(&self, id: ValueId) -> (r: bool)
        requires
            self.inv(),
        ensures
            r == (self@.ir.value(id) is Some),
    {
        self.ir.get_value(id).is_some()
    }

    pub fn has_region(&self, id: RegionId) -> (r: bool)
        requires
            self.inv(),
        ensures
            r == (self@.ir.region(id) is Some),
    {
        self.ir.get_region(id).is_some()
    }

    pub fn has_block(&self, id: BlockId) -> (r: bool)
        requires
            self.inv(),
        ensures
            r == (self@.ir.block(id) is Some),
    {
        self.ir.get_block(id).is_some()
    }

    /// How many blocks were ever minted.
    pub fn block_count(&self) -> (n: usize)
        requires
            self.inv(),
        ensures
            n == self@.ir.blocks.now.len(),
    {
        self.ir.block_count()
    }

    /// How many regions were ever minted.
    pub fn region_count(&self) -> (n: usize)
        requires
            self.inv(),
        ensures
            n == self@.ir.regions.now.len(),
    {
        self.ir.region_count()
    }

    /// How many values were ever minted: the number the next one gets.
    pub fn value_count(&self) -> (n: usize)
        requires
            self.inv(),
        ensures
            n == self@.ir.values.now.len(),
    {
        self.ir.value_count()
    }

    /// How many operations were ever minted.
    pub fn op_count(&self) -> (n: usize)
        requires
            self.inv(),
        ensures
            n == self@.ir.ops.now.len(),
    {
        self.ir.op_count()
    }

    /// The structural version of `op`: a counter bumped by every edit to `op` or
    /// to anything under it, continuous across commits. Analyses cached against
    /// a version are stale as soon as it moves.
    pub fn op_version(&self, op: OpId) -> (n: u32)
        requires
            self.inv(),
        ensures
            n == self@.version(op),
    {
        let committed: u32 = if (op.0 as usize) < self.versions.len() {
            self.versions[op.0 as usize]
        } else {
            0
        };
        committed.saturating_add(self.journal.revision(op))
    }

    /// The subtrees edited since the last call, innermost-dirtied op per edit,
    /// without repeats and without ops that are gone.
    pub fn take_dirty_ops(&mut self) -> (r: Vec<OpId>)
        requires
            old(self).inv(),
        ensures
            final(self).inv(),
            final(self)@ == (ContextView {
                journal: JournalView { dirty: Seq::empty(), ..old(self)@.journal },
                ..old(self)@
            }),
            ascending(r@),
            forall|op: OpId| #[trigger]
                r@.contains(op) <==> old(self)@.journal.dirty.contains(op) && old(self)@.ir.op(
                    op,
                ) is Some,
    {
        let dirty = self.journal.take_dirty();
        let sorted = sorted_unique(&dirty);
        let mut r: Vec<OpId> = Vec::new();
        let mut i: usize = 0;
        while i < sorted.len()
            invariant
                i <= sorted.len(),
                self.inv(),
                self@.ir == old(self)@.ir,
                self@ == (ContextView {
                    journal: JournalView { dirty: Seq::empty(), ..old(self)@.journal },
                    ..old(self)@
                }),
                ascending(sorted@),
                ascending(r@),
                forall|k: int| 0 <= k < r@.len() ==> exists|j: int|
                    0 <= j < i && sorted@[j] == #[trigger] r@[k],
                forall|op: OpId| #[trigger]
                    r@.contains(op) <==> sorted@.take(i as int).contains(op) && self@.ir.op(
                        op,
                    ) is Some,
            decreases sorted.len() - i,
        {
            let op = sorted[i];
            let ghost before = r@;
            let live = self.has_operation(op);
            if live {
                proof {
                    assert forall|k: int| 0 <= k < r@.len() implies (#[trigger] r@[k]).0 < op.0 by {
                        let j = choose|j: int| 0 <= j < i && sorted@[j] == r@[k];
                        assert(sorted@[j].0 < sorted@[i as int].0);
                    }
                }
                r.push(op);
            }
            proof {
                let taken = sorted@.take(i as int);
                let more = sorted@.take(i + 1);
                assert(more =~= taken.push(op));
                assert forall|x: OpId| #[trigger]
                    r@.contains(x) <==> more.contains(x) && self@.ir.op(x) is Some by {
                    assert(more.contains(x) <==> taken.contains(x) || x == op) by {
                        if more.contains(x) {
                            let k = choose|k: int| 0 <= k < more.len() && more[k] == x;
                            if k < taken.len() {
                                assert(taken[k] == x);
                            }
                        }
                        if taken.contains(x) {
                            let k = choose|k: int| 0 <= k < taken.len() && taken[k] == x;
                            assert(more[k] == x);
                        }
                        if x == op {
                            assert(more[taken.len() as int] == x);
                        }
                    }
                    assert(before.contains(x) <==> taken.contains(x) && self@.ir.op(x) is Some);
                    if live {
                        assert(r@ == before.push(op));
                        if r@.contains(x) {
                            let k = choose|k: int| 0 <= k < r@.len() && r@[k] == x;
                            if k < before.len() {
                                assert(before[k] == x);
                            }
                        }
                        if before.contains(x) {
                            let k = choose|k: int| 0 <= k < before.len() && before[k] == x;
                            assert(r@[k] == x);
                        }
                        if x == op {
                            assert(r@[before.len() as int] == x);
                        }
                    }
                }
                assert forall|k: int| 0 <= k < r@.len() implies exists|j: int|
                    0 <= j < i + 1 && sorted@[j] == #[trigger] r@[k] by {
                    if k < before.len() {
                        assert(r@[k] == before[k]);
                        let j = choose|j: int| 0 <= j < i && sorted@[j] == before[k];
                        assert(sorted@[j] == r@[k]);
                    } else {
                        assert(sorted@[i as int] == r@[k]);
                    }
                }
            }
            i += 1;
        }
        proof {
            assert(sorted@.take(i as int) =~= sorted@);
            assert forall|op: OpId| #[trigger]
                r@.contains(op) <==> old(self)@.journal.dirty.contains(op) && old(self)@.ir.op(
                    op,
                ) is Some by {
                assert(sorted@.contains(op) <==> dirty@.contains(op));
            }
        }
        r
    }

    /// The live value `id`.
    pub fn get_value(&self, id: ValueId) -> (v: Value)
        requires
            self.inv(),
            self@.ir.value(id) is Some,
        ensures
            v == self@.ir.value(id)->0.value,
    {
        self.ir.get_value(id).unwrap().value
    }

    pub(crate) fn is_state(&self, id: ValueId) -> (r: bool)
        requires
            self.inv(),
        ensures
            r == self@.is_state(id),
    {
        match self.ir.get_value(id) {
            Some(entry) => entry.value.is_state(),
            None => false,
        }
    }

    /// The values of `ids` that are not memory states, in order.
    pub fn values_among(&self, ids: &[ValueId]) -> (r: ValueIds)
        requires
            self.inv(),
            ids@.len() <= MAX_IDS,
        ensures
            r@ == self@.filtered(ids@, false),
    {
        self.filter_states(ids, false)
    }

    /// The values of `ids` that are memory states, in order.
    pub fn states_among(&self, ids: &[ValueId]) -> (r: ValueIds)
        requires
            self.inv(),
            ids@.len() <= MAX_IDS,
        ensures
            r@ == self@.filtered(ids@, true),
    {
        self.filter_states(ids, true)
    }

    fn filter_states(&self, ids: &[ValueId], states: bool) -> (r: ValueIds)
        requires
            self.inv(),
            ids@.len() <= MAX_IDS,
        ensures
            r@ == self@.filtered(ids@, states),
    {
        let mut kept: Vec<ValueId> = Vec::new();
        let mut i: usize = 0;
        while i < ids.len()
            invariant
                self.inv(),
                i <= ids.len(),
                ids@.len() <= MAX_IDS,
                kept.len() <= i,
                kept@ == self@.filtered(ids@.take(i as int), states),
            decreases ids.len() - i,
        {
            let ghost more = ids@.take(i + 1);
            assert(more.drop_last() =~= ids@.take(i as int));
            assert(more.last() == ids@[i as int]);
            if self.is_state(ids[i]) == states {
                kept.push(ids[i]);
            }
            i += 1;
        }
        assert(ids@.take(i as int) =~= ids@);
        ValueIds::from_slice(kept.as_slice())
    }

    /// Every operand slot holding `value`, in the order the uses were recorded.
    ///
    /// This is the def-use chain: it lists what live operation storage holds,
    /// whether or not the reading op sits in the tree. Attributes naming a
    /// value are not uses: they record where the ABI places it, not a read.
    pub fn uses_of(&self, value: ValueId) -> (r: Vec<Use>)
        requires
            self.inv(),
        ensures
            r@ == use_list(self@.ir.uses, value),
    {
        self.ir.uses_of(value)
    }

    /// The operations reading `value`, one entry per operand slot.
    pub fn users_of(&self, value: ValueId) -> (r: Vec<OpId>)
        requires
            self.inv(),
        ensures
            r@ == use_list(self@.ir.uses, value).map_values(|u: Use| u.op),
    {
        let uses = self.uses_of(value);
        let mut r: Vec<OpId> = Vec::new();
        let mut i: usize = 0;
        while i < uses.len()
            invariant
                i <= uses.len(),
                r.len() == i,
                forall|j: int| 0 <= j < i ==> #[trigger] r[j] == uses[j].op,
            decreases uses.len() - i,
        {
            r.push(uses[i].op);
            i += 1;
        }
        assert(r@ =~= uses@.map_values(|u: Use| u.op));
        r
    }

    /// Whether any operand slot holds `value`.
    pub fn is_used(&self, value: ValueId) -> (r: bool)
        requires
            self.inv(),
        ensures
            r == (use_list(self@.ir.uses, value).len() > 0),
    {
        self.ir.is_used(value)
    }

    /// How many operand slots hold `value`.
    pub fn use_count(&self, value: ValueId) -> (n: usize)
        requires
            self.inv(),
        ensures
            n == use_list(self@.ir.uses, value).len(),
    {
        self.uses_of(value).len()
    }

    /// The block `id` is an argument of, or `None` when an operation defines it.
    pub fn block_of_argument(&self, id: ValueId) -> (r: Option<BlockId>)
        requires
            self.inv(),
        ensures
            r == match self@.ir.value(id) {
                Some(entry) => entry.block,
                None => None,
            },
    {
        match self.ir.get_value(id) {
            Some(entry) => entry.block,
            None => None,
        }
    }

    /// The region `id` is a port of, or `None` when it is a block argument or
    /// an operation defines it.
    pub fn region_of_port(&self, id: ValueId) -> (r: Option<RegionId>)
        requires
            self.inv(),
        ensures
            r == match self@.ir.value(id) {
                Some(entry) => entry.region,
                None => None,
            },
    {
        match self.ir.get_value(id) {
            Some(entry) => entry.region,
            None => None,
        }
    }

    pub fn is_block_argument(&self, id: ValueId) -> (r: bool)
        requires
            self.inv(),
        ensures
            r == (self@.ir.value(id) is Some && self@.ir.value(id)->0.block is Some),
    {
        self.block_of_argument(id).is_some()
    }

    /// Whether `id` is an argument a region owns itself, rather than one its
    /// entry block owns or a value some operation defines.
    pub fn is_region_port(&self, id: ValueId) -> (r: bool)
        requires
            self.inv(),
        ensures
            r == (self@.ir.value(id) is Some && self@.ir.value(id)->0.region is Some),
    {
        self.region_of_port(id).is_some()
    }

    /// What holds `op`.
    pub fn op_parent(&self, op: OpId) -> (r: Option<Parent>)
        requires
            self.inv(),
        ensures
            r == match self@.ir.op(op) {
                Some(o) => o.parent,
                None => None,
            },
    {
        match self.ir.get_op(op) {
            Some(o) => o.parent,
            None => None,
        }
    }

    /// The block currently holding `op`, or `None` for an op not in any block
    /// (the root op, or one detached by a rewrite).
    pub fn parent_block(&self, op: OpId) -> (r: Option<BlockId>)
        requires
            self.inv(),
        ensures
            r == match self@.ir.op(op) {
                Some(o) => match o.parent {
                    Some(Parent::Block(block)) => Some(block),
                    _ => None,
                },
                None => None,
            },
    {
        match self.op_parent(op) {
            Some(Parent::Block(block)) => Some(block),
            _ => None,
        }
    }

    /// The unordered region holding `op` directly, or `None` for an op that
    /// sits in a block or in no region at all.
    pub fn parent_nodes_region(&self, op: OpId) -> (r: Option<RegionId>)
        requires
            self.inv(),
        ensures
            r == match self@.ir.op(op) {
                Some(o) => match o.parent {
                    Some(Parent::Region(region)) => Some(region),
                    _ => None,
                },
                None => None,
            },
    {
        match self.op_parent(op) {
            Some(Parent::Region(region)) => Some(region),
            _ => None,
        }
    }

    /// The region currently holding `block`, or `None` for a detached block.
    pub fn parent_region(&self, block: BlockId) -> (r: Option<RegionId>)
        requires
            self.inv(),
        ensures
            r == match self@.ir.block(block) {
                Some(b) => b.parent,
                None => None,
            },
    {
        match self.ir.get_block(block) {
            Some(b) => b.parent,
            None => None,
        }
    }

    /// The region holding `op`, through its block where it has one.
    pub fn region_of_op(&self, op: OpId) -> (r: Option<RegionId>)
        requires
            self.inv(),
        ensures
            r == region_holding(self@.ir, op),
    {
        match self.op_parent(op) {
            Some(Parent::Region(region)) => Some(region),
            Some(Parent::Block(block)) => self.parent_region(block),
            None => None,
        }
    }

    /// The operation enclosing `op`: the owner of the region holding `op`.
    /// `None` for a root op or one detached by a rewrite.
    pub fn parent_op(&self, op: OpId) -> (r: Option<OpId>)
        requires
            self.inv(),
        ensures
            r == enclosing(self@.ir, op),
    {
        enclosing_op(&self.ir, op)
    }

    /// An attribute of `op`, read in place. For an attribute large enough that
    /// copying it per lookup would matter.
    pub fn with_attr(&self, id: OpId, name: &str) -> (r: Option<&AttributeValue>)
        requires
            self.inv(),
        ensures
            r is Some <==> self@.attr(id, name@) is Some,
            r is Some ==> Some(r->0@) == self@.attr(id, name@),
    {
        match self.ir.get_op(id) {
            Some(op) => find_attribute(&op.attributes, name),
            None => None,
        }
    }

    /// The value of the attribute of `id` called `name`.
    pub fn op_attr(&self, id: OpId, name: &str) -> (r: Option<AttributeValue>)
        requires
            self.inv(),
        ensures
            r is Some <==> self@.attr(id, name@) is Some,
            r is Some ==> Some(r->0@) == self@.attr(id, name@),
    {
        match self.with_attr(id, name) {
            Some(value) => Some(value.copy()),
            None => None,
        }
    }

    /// The operands of a live operation, read in place.
    pub fn operands_of(&self, id: OpId) -> (r: &Vec<ValueId>)
        requires
            self.inv(),
            self@.ir.op(id) is Some,
        ensures
            r@ == self@.ir.op(id)->0.operands,
    {
        &self.ir.get_op(id).unwrap().operands
    }

    /// The results of a live operation, read in place.
    pub fn results_of(&self, id: OpId) -> (r: &Vec<ValueId>)
        requires
            self.inv(),
            self@.ir.op(id) is Some,
        ensures
            r@ == self@.ir.op(id)->0.results,
    {
        &self.ir.get_op(id).unwrap().results
    }

    /// The regions of a live operation, read in place.
    pub fn regions_of(&self, id: OpId) -> (r: &Vec<RegionId>)
        requires
            self.inv(),
            self@.ir.op(id) is Some,
        ensures
            r@ == self@.ir.op(id)->0.regions,
    {
        &self.ir.get_op(id).unwrap().regions
    }

    /// How many trailing operands and results of a live operation are
    /// dependencies.
    pub fn op_dep_counts(&self, id: OpId) -> (r: (usize, usize))
        requires
            self.inv(),
            self@.ir.op(id) is Some,
        ensures
            r.0 == self@.ir.op(id)->0.dep_operands,
            r.1 == self@.ir.op(id)->0.dep_results,
    {
        let op = self.ir.get_op(id).unwrap();
        (op.dep_operands as usize, op.dep_results as usize)
    }

    /// The attributes of `id`, none where no live operation has that id.
    pub fn op_attributes(&self, id: OpId) -> (r: Vec<NamedAttribute>)
        requires
            self.inv(),
        ensures
            named_views(r@) == match self@.ir.op(id) {
                Some(op) => op.attributes,
                None => Seq::empty(),
            },
    {
        match self.ir.get_op(id) {
            Some(op) => copy_attributes(&op.attributes),
            None => {
                let none: Vec<NamedAttribute> = Vec::new();
                assert(named_views(none@) =~= Seq::empty());
                none
            },
        }
    }

    /// The `(dialect, name)` pair a live operation is spelled by.
    pub fn op_identity(&self, id: OpId) -> (r: (&'static str, &'static str))
        requires
            self.inv(),
            self@.ir.op(id) is Some,
            self@.ir.op(id)->0.name.0 < self@.names.len(),
        ensures
            (r.0@, r.1@) == self@.identity(id),
    {
        let at: usize = self.ir.get_op(id).unwrap().name.0 as usize;
        self.names[at]
    }

    /// Whether operations of `id`'s kind make the promise `interface`.
    pub fn has_interface(&self, id: OpId, interface: Interface) -> (r: bool)
        requires
            self.inv(),
            self@.ir.op(id) is Some,
            self@.ir.op(id)->0.name.0 < self@.names.len(),
        ensures
            r == self@.has_interface(id, interface),
    {
        let (dialect, name) = self.op_identity(id);
        let ghost wanted = (dialect@, name@, interface);
        let mut i: usize = 0;
        while i < self.interfaces.len()
            invariant
                i <= self.interfaces.len(),
                wanted == (dialect@, name@, interface),
                (dialect@, name@) == self@.identity(id),
                self@.interfaces.len() == self.interfaces.len(),
                forall|j: int| 0 <= j < i ==> self@.interfaces[j] != wanted,
            decreases self.interfaces.len() - i,
        {
            assert(self@.interfaces[i as int] == interface_view(self.interfaces[i as int]));
            if same(self.interfaces[i].0, dialect) && same(self.interfaces[i].1, name)
                && self.interfaces[i].2 == interface {
                assert(self@.interfaces[i as int] == wanted);
                return true;
            }
            i += 1;
        }
        assert(!self@.interfaces.contains(wanted));
        false
    }

    /// A live block, read in place.
    pub fn block_ref(&self, id: BlockId) -> (r: &Block)
        requires
            self.inv(),
            self@.ir.block(id) is Some,
        ensures
            Some(r@) == self@.ir.block(id),
    {
        self.ir.get_block(id).unwrap()
    }

    /// A live region, read in place.
    pub fn region_ref(&self, id: RegionId) -> (r: &Region)
        requires
            self.inv(),
            self@.ir.region(id) is Some,
        ensures
            Some(r@) == self@.ir.region(id),
    {
        self.ir.get_region(id).unwrap()
    }

    /// Whether a region is unordered.
    pub fn region_is_nodes(&self, id: RegionId) -> (r: bool)
        requires
            self.inv(),
        ensures
            r == self@.is_nodes(id),
    {
        match self.ir.get_region(id) {
            Some(region) => match region.body {
                RegionBody::Nodes { .. } => true,
                RegionBody::Blocks(_) => false,
            },
            None => false,
        }
    }

    /// The operation that owns a region.
    pub fn region_parent_op(&self, id: RegionId) -> (r: Option<OpId>)
        requires
            self.inv(),
        ensures
            r == crate::journal::region_owner(self@.ir, id),
    {
        crate::journal::owner_of_region(&self.ir, id)
    }

    /// The operations a region holds: those of its blocks in order, or its own.
    pub fn region_op_ids(&self, id: RegionId) -> (r: Vec<OpId>)
        requires
            self.inv(),
        ensures
            r@ == self@.region_ops(id),
    {
        let region = match self.ir.get_region(id) {
            Some(region) => region,
            None => {
                return Vec::new();
            },
        };
        match &region.body {
            RegionBody::Nodes { ports: _, ops, results: _ } => copy_list(ops),
            RegionBody::Blocks(blocks) => {
                let mut r: Vec<OpId> = Vec::new();
                let mut i: usize = 0;
                while i < blocks.len()
                    invariant
                        self.inv(),
                        i <= blocks.len(),
                        r@ == self@.block_ops(blocks@.take(i as int)),
                    decreases blocks.len() - i,
                {
                    let ghost more = blocks@.take(i + 1);
                    assert(more.drop_last() =~= blocks@.take(i as int));
                    assert(more.last() == blocks@[i as int]);
                    let ghost before = r@;
                    if let Some(block) = self.ir.get_block(blocks[i]) {
                        let mut held = copy_list(&block.operations);
                        r.append(&mut held);
                        assert(r@ =~= before + block.operations@);
                    } else {
                        assert(r@ =~= before + Seq::<OpId>::empty());
                    }
                    i += 1;
                }
                assert(blocks@.take(i as int) =~= blocks@);
                r
            },
        }
    }

    /// The arguments of a region: its own ports, or those of its entry block.
    pub fn region_ports(&self, id: RegionId) -> (r: Vec<Value>)
        requires
            self.inv(),
        ensures
            r@ == self@.region_ports(id),
    {
        let region = match self.ir.get_region(id) {
            Some(region) => region,
            None => {
                return Vec::new();
            },
        };
        match &region.body {
            RegionBody::Nodes { ports, ops: _, results: _ } => copy_list(ports),
            RegionBody::Blocks(blocks) => if blocks.len() > 0 {
                match self.ir.get_block(blocks[0]) {
                    Some(block) => copy_list(&block.arguments),
                    None => Vec::new(),
                }
            } else {
                Vec::new()
            },
        }
    }

    /// The values an unordered region produces. An ordered one names none.
    pub fn region_results(&self, id: RegionId) -> (r: Vec<ValueId>)
        requires
            self.inv(),
        ensures
            r@ == self@.region_results(id),
    {
        match self.ir.get_region(id) {
            Some(region) => match &region.body {
                RegionBody::Nodes { ports: _, ops: _, results } => copy_list(results),
                RegionBody::Blocks(_) => Vec::new(),
            },
            None => Vec::new(),
        }
    }

    /// The blocks of an ordered region. An unordered one has none.
    pub fn region_block_ids(&self, id: RegionId) -> (r: Vec<BlockId>)
        requires
            self.inv(),
        ensures
            r@ == match self@.ir.region(id) {
                Some(region) => match region.body {
                    BodyView::Blocks(blocks) => blocks,
                    BodyView::Nodes(_, _, _) => Seq::empty(),
                },
                None => Seq::empty(),
            },
    {
        match self.ir.get_region(id) {
            Some(region) => match &region.body {
                RegionBody::Nodes { .. } => Vec::new(),
                RegionBody::Blocks(blocks) => copy_list(blocks),
            },
            None => Vec::new(),
        }
    }
}

/// The region holding `op`, through its block where it has one.
pub open spec fn region_holding(ir: IrView, op: OpId) -> Option<RegionId> {
    match ir.op(op) {
        Some(o) => match o.parent {
            Some(Parent::Region(region)) => Some(region),
            Some(Parent::Block(block)) => match ir.block(block) {
                Some(b) => b.parent,
                None => None,
            },
            None => None,
        },
        None => None,
    }
}

/// The version of an operation does not move when edits are committed.
pub proof fn versions_survive_a_commit(before: ContextView, after: ContextView, op: OpId)
    requires
        after.versions == folded(before.versions, before.journal.revision),
        after.journal == JournalView::empty(),
    ensures
        after.version(op) == before.version(op),
{
    let i = op.0 as int;
    let n = after.versions.len();
    if i >= n {
        assert(entry_or_zero(before.versions, i) == 0);
        assert(entry_or_zero(before.journal.revision, i) == 0);
    }
}

/// The version of an operation the overlay edited moves past what it reached
/// when the edits are dropped, short of the counter's end.
pub proof fn versions_move_past_a_discard(before: ContextView, after: ContextView, op: OpId)
    requires
        after.versions == folded(before.versions, passed(before.journal.revision)),
        after.journal == JournalView::empty(),
        revision_of(before.journal, op) > 0,
        before.version(op) < u32::MAX,
    ensures
        after.version(op) > before.version(op),
{
    let i = op.0 as int;
    assert(passed(before.journal.revision)[i] == counted_together(before.journal.revision[i], 1));
}

} // verus!

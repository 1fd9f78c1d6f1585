//! Edits of regions and of operand groups: what a rewrite of the control
//! structure is made from.
use vstd::prelude::*;
use crate::attributes::attr_view;
use crate::attributes::dict_lookup;
use crate::attributes::find_attribute;
use crate::attributes::named_views;
use crate::attributes::set_attribute;
use crate::attributes::with_attribute;
use crate::attributes::AttrView;
use crate::attributes::AttributeValue;
use crate::attributes::NamedAttribute;
use crate::context::ascending;
use crate::context::moved::replaced_uses_move;
use crate::context::moved_to;
use crate::context::moving_keeps_one_hop;
use crate::context::resolved;
use crate::context::resolving_settles;
use crate::context::sorted_unique;
use crate::context::Context;
use crate::context::ContextView;
use crate::ids::OpId;
use crate::ids::TypeId;
use crate::ids::ValueId;
use crate::ir::copy_list;
use crate::ir::operands_are_minted;
use crate::ir::slot_holds;
use crate::ir::use_list;
use crate::ir::IrView;
use crate::ir::OpInstance;
use crate::ir::OpView;
use crate::ir::Use;
use crate::overlay::Record;

verus! {

/// The size one entry of a segment list stands for.
pub open spec fn segment_size(item: AttrView) -> nat {
    match item {
        AttrView::UInt(n) => n,
        _ => 0,
    }
}

/// Where the segment at `k` ends: the sizes up to and with it.
pub open spec fn segment_end(items: Seq<AttrView>, k: int) -> nat
    decreases k + 1,
{
    if k < 0 || k >= items.len() {
        0
    } else {
        segment_end(items, k - 1) + segment_size(items[k])
    }
}

/// The segment sizes of an operation, where it records them.
pub open spec fn recorded_sizes(attributes: Seq<(Seq<char>, AttrView)>) -> Option<Seq<AttrView>> {
    match dict_lookup(attributes, "operand_segment_sizes"@) {
        Some(AttrView::Array(items)) => Some(items),
        _ => None,
    }
}

/// The attributes with the segment at `k` resized.
pub open spec fn resized(
    attributes: Seq<(Seq<char>, AttrView)>,
    items: Seq<AttrView>,
    k: int,
    size: nat,
) -> Seq<(Seq<char>, AttrView)> {
    with_attribute(
        attributes,
        "operand_segment_sizes"@,
        AttrView::Array(items.update(k, AttrView::UInt(size))),
    )
}

/// The last segment that ends at `end`.
pub open spec fn segment_ending_at(items: Seq<AttrView>, end: nat, below: int) -> Option<int>
    decreases below,
{
    if below <= 0 || below > items.len() {
        None
    } else if segment_end(items, below - 1) == end {
        Some(below - 1)
    } else {
        segment_ending_at(items, end, below - 1)
    }
}

/// The segment that holds operand `index`.
pub open spec fn segment_holding(items: Seq<AttrView>, index: nat, from: int) -> Option<int>
    decreases items.len() - from,
{
    if from < 0 || from >= items.len() {
        None
    } else if segment_end(items, from - 1) <= index < segment_end(items, from) {
        Some(from)
    } else {
        segment_holding(items, index, from + 1)
    }
}

/// The attributes after the last segment grew by one operand.
pub open spec fn last_segment_grown(attributes: Seq<(Seq<char>, AttrView)>) -> Seq<
    (Seq<char>, AttrView),
> {
    match recorded_sizes(attributes) {
        Some(items) => if items.len() > 0 && segment_size(items.last()) < u64::MAX {
            resized(attributes, items, items.len() - 1, segment_size(items.last()) + 1)
        } else {
            attributes
        },
        None => attributes,
    }
}

/// The attributes after the segment that ends at `end` grew by one operand.
pub open spec fn segment_grown(attributes: Seq<(Seq<char>, AttrView)>, end: nat) -> Seq<
    (Seq<char>, AttrView),
> {
    match recorded_sizes(attributes) {
        Some(items) => match segment_ending_at(items, end, items.len() as int) {
            Some(k) => if segment_size(items[k]) < u64::MAX {
                resized(attributes, items, k, segment_size(items[k]) + 1)
            } else {
                attributes
            },
            None => attributes,
        },
        None => attributes,
    }
}

/// The attributes after the segment that holds `index` lost one operand.
pub open spec fn segment_shrunk(attributes: Seq<(Seq<char>, AttrView)>, index: nat) -> Seq<
    (Seq<char>, AttrView),
> {
    match recorded_sizes(attributes) {
        Some(items) => match segment_holding(items, index, 0) {
            Some(k) => resized(attributes, items, k, (segment_size(items[k]) - 1) as nat),
            None => attributes,
        },
        None => attributes,
    }
}

/// The size one entry of a segment list stands for.
pub fn size_of_item(item: &AttributeValue) -> (n: u64)
    ensures
        n == segment_size(item@),
{
    match item {
        AttributeValue::UInt(n) => *n,
        _ => 0,
    }
}

/// The segment sizes recorded among `attributes`.
pub fn sizes_of(attributes: &Vec<NamedAttribute>) -> (r: Option<Vec<AttributeValue>>)
    ensures
        r is Some <==> recorded_sizes(named_views(attributes@)) is Some,
        r is Some ==> crate::attributes::attr_views(r->0@) == recorded_sizes(
            named_views(attributes@),
        )->0,
{
    match find_attribute(attributes, "operand_segment_sizes") {
        Some(AttributeValue::Array(items)) => {
            let ghost want = attr_view(AttributeValue::Array(*items))->Array_0;
            let mut r: Vec<AttributeValue> = Vec::new();
            let mut i: usize = 0;
            while i < items.len()
                invariant
                    i <= items.len(),
                    r.len() == i,
                    want == attr_view(AttributeValue::Array(*items))->Array_0,
                    forall|j: int| 0 <= j < i ==> (#[trigger] r@[j])@ == want[j],
                decreases items.len() - i,
            {
                r.push(items[i].copy());
                i += 1;
            }
            assert(crate::attributes::attr_views(r@) =~= want);
            Some(r)
        },
        _ => None,
    }
}

fn resize_segment(
    attributes: &mut Vec<NamedAttribute>,
    items: Vec<AttributeValue>,
    k: usize,
    size: u64,
)
    requires
        k < items.len(),
    ensures
        named_views(final(attributes)@) == resized(
            named_views(old(attributes)@),
            crate::attributes::attr_views(items@),
            k as int,
            size as nat,
        ),
{
    let ghost views = crate::attributes::attr_views(items@);
    let ghost before = items@;
    let mut items = items;
    items.set(k, AttributeValue::UInt(size));
    let ghost after = items@;
    let value = AttributeValue::Array(items);
    proof {
        let shown = attr_view(value)->Array_0;
        assert forall|j: int| 0 <= j < after.len() implies #[trigger] shown[j] == views.update(
            k as int,
            AttrView::UInt(size as nat),
        )[j] by {
            assert(shown[j] == attr_view(after[j]));
            assert(views[j] == attr_view(before[j]));
        }
        assert(shown =~= views.update(k as int, AttrView::UInt(size as nat)));
    }
    set_attribute(attributes, "operand_segment_sizes", value);
}

fn grow_last_segment(attributes: &mut Vec<NamedAttribute>)
    ensures
        named_views(final(attributes)@) == last_segment_grown(named_views(old(attributes)@)),
{
    if let Some(items) = sizes_of(attributes) {
        let n: usize = items.len();
        if n > 0 {
            assert(crate::attributes::attr_views(items@).last() == items@[n - 1]@);
            let size: u64 = size_of_item(&items[n - 1]);
            if size < u64::MAX {
                resize_segment(attributes, items, n - 1, size + 1);
            }
        }
    }
}

proof fn no_later_segment(items: Seq<AttrView>, end: nat, k: int, below: int)
    requires
        0 <= k < below <= items.len(),
        segment_end(items, k) == end,
        forall|j: int| k < j < below ==> #[trigger] segment_end(items, j) != end,
    ensures
        segment_ending_at(items, end, below) == Some(k),
    decreases below,
{
    if below - 1 > k {
        assert(segment_end(items, below - 1) != end);
        no_later_segment(items, end, k, below - 1);
    }
}

proof fn no_segment(items: Seq<AttrView>, end: nat, below: int)
    requires
        0 <= below <= items.len(),
        forall|j: int| 0 <= j < below ==> #[trigger] segment_end(items, j) != end,
    ensures
        segment_ending_at(items, end, below) is None,
    decreases below,
{
    if below > 0 {
        assert(segment_end(items, below - 1) != end);
        no_segment(items, end, below - 1);
    }
}

fn grow_segment_ending_at(attributes: &mut Vec<NamedAttribute>, end: usize)
    ensures
        named_views(final(attributes)@) == segment_grown(
            named_views(old(attributes)@),
            end as nat,
        ),
{
    let items = match sizes_of(attributes) {
        Some(items) => items,
        None => {
            return;
        },
    };
    let ghost views = crate::attributes::attr_views(items@);
    proof {
        assert forall|i: int| 0 <= i < views.len() implies segment_size(#[trigger] views[i])
            <= u64::MAX by {
            sizes_fit(items@[i]);
        }
    }
    let mut found: Option<usize> = None;
    let mut total: u128 = 0;
    let mut i: usize = 0;
    while i < items.len()
        invariant
            i <= items.len(),
            views == crate::attributes::attr_views(items@),
            forall|j: int| 0 <= j < views.len() ==> segment_size(#[trigger] views[j]) <= u64::MAX,
            total == segment_end(views, i - 1),
            total <= i * 0x1_0000_0000_0000_0000,
            match found {
                Some(k) => k < i && segment_end(views, k as int) == end && forall|j: int|
                    k < j < i ==> #[trigger] segment_end(views, j) != end,
                None => forall|j: int| 0 <= j < i ==> #[trigger] segment_end(views, j) != end,
            },
        decreases items.len() - i,
    {
        proof {
            assert(views[i as int] == items@[i as int]@);
            assert(i * 0x1_0000_0000_0000_0000 + 0x1_0000_0000_0000_0000 <= u128::MAX)
                by (nonlinear_arith)
                requires
                    i < 0xffff_ffff_ffff_ffff,
            ;
        }
        total = total + size_of_item(&items[i]) as u128;
        if total == end as u128 {
            found = Some(i);
        }
        i += 1;
    }
    match found {
        Some(k) => {
            proof {
                no_later_segment(views, end as nat, k as int, views.len() as int);
                assert(views[k as int] == items@[k as int]@);
            }
            let size: u64 = size_of_item(&items[k]);
            if size < u64::MAX {
                resize_segment(attributes, items, k, size + 1);
            }
        },
        None => {
            proof {
                no_segment(views, end as nat, views.len() as int);
            }
        },
    }
}

pub proof fn sizes_fit(item: AttributeValue)
    ensures
        segment_size(item@) <= u64::MAX,
{
}

fn shrink_segment_holding(attributes: &mut Vec<NamedAttribute>, index: usize)
    ensures
        named_views(final(attributes)@) == segment_shrunk(
            named_views(old(attributes)@),
            index as nat,
        ),
{
    let items = match sizes_of(attributes) {
        Some(items) => items,
        None => {
            return;
        },
    };
    let ghost views = crate::attributes::attr_views(items@);
    proof {
        assert forall|i: int| 0 <= i < views.len() implies segment_size(#[trigger] views[i])
            <= u64::MAX by {
            sizes_fit(items@[i]);
        }
    }
    let mut total: u128 = 0;
    let mut i: usize = 0;
    while i < items.len()
        invariant
            i <= items.len(),
            attributes@ == old(attributes)@,
            views == crate::attributes::attr_views(items@),
            recorded_sizes(named_views(attributes@)) == Some(views),
            forall|j: int| 0 <= j < views.len() ==> segment_size(#[trigger] views[j]) <= u64::MAX,
            total == segment_end(views, i - 1),
            total <= i * 0x1_0000_0000_0000_0000,
            segment_holding(views, index as nat, 0) == segment_holding(
                views,
                index as nat,
                i as int,
            ),
        decreases items.len() - i,
    {
        proof {
            assert(views[i as int] == items@[i as int]@);
            assert(i * 0x1_0000_0000_0000_0000 + 0x1_0000_0000_0000_0000 <= u128::MAX)
                by (nonlinear_arith)
                requires
                    i < 0xffff_ffff_ffff_ffff,
            ;
        }
        let size: u64 = size_of_item(&items[i]);
        let next: u128 = total + size as u128;
        if total <= index as u128 && (index as u128) < next {
            resize_segment(attributes, items, i, size - 1);
            return;
        }
        total = next;
        i += 1;
    }
}

impl ContextView {
    /// With the operands of a live operation replaced, and its attributes.
    pub open spec fn with_operand_groups(
        self,
        id: OpId,
        operands: Seq<ValueId>,
        attributes: Seq<(Seq<char>, AttrView)>,
    ) -> Self {
        let moved = self.ir.put_operands(id, operands);
        self.with_ir(
            moved.put_op(id, OpView { attributes, ..moved.op(id)->0 }),
        ).reported_op(id)
    }

    /// Whether operation `op` reads `value`.
    pub open spec fn reads(self, op: OpId, value: ValueId) -> bool {
        self.ir.op(op) is Some && self.ir.op(op)->0.operands.contains(value)
    }
}

/// `operands` with every `old_value` read as `new_value`.
pub open spec fn substituted(
    operands: Seq<ValueId>,
    old_value: ValueId,
    new_value: ValueId,
) -> Seq<ValueId> {
    operands.map_values(
        |v: ValueId|
            if v == old_value {
                new_value
            } else {
                v
            },
    )
}

/// The IR after the first `n` operations of `ops` read `new_value` where they
/// read `old_value`.
pub open spec fn reads_replaced(
    ir: IrView,
    ops: Seq<OpId>,
    old_value: ValueId,
    new_value: ValueId,
    n: nat,
) -> IrView
    decreases n,
{
    if n == 0 {
        ir
    } else {
        let before = reads_replaced(ir, ops, old_value, new_value, (n - 1) as nat);
        before.put_operands(
            ops[n - 1],
            substituted(before.op(ops[n - 1])->0.operands, old_value, new_value),
        )
    }
}

/// The context after the first `n` operations of `ops` were reported.
pub open spec fn ops_reported(context: ContextView, ops: Seq<OpId>, n: nat) -> ContextView
    decreases n,
{
    if n == 0 {
        context
    } else {
        ops_reported(context, ops, (n - 1) as nat).reported_op(ops[n - 1])
    }
}

/// The operations numbered below `n` that read `value`, by number.
pub open spec fn readers(context: ContextView, value: ValueId, n: nat) -> Seq<OpId>
    decreases n,
{
    if n == 0 {
        Seq::empty()
    } else {
        let before = readers(context, value, (n - 1) as nat);
        if context.reads(OpId((n - 1) as u32), value) {
            before.push(OpId((n - 1) as u32))
        } else {
            before
        }
    }
}

/// The context after every read of `old_value` answers what answers for `new_value`.
pub open spec fn value_replaced(
    context: ContextView,
    old_value: ValueId,
    new_value: ValueId,
) -> ContextView {
    if old_value == new_value {
        context
    } else {
        let users = readers(context, old_value, context.ir.ops.now.len());
        let target = context.resolve(new_value);
        ops_reported(
            ContextView {
                ir: reads_replaced(context.ir, users, old_value, target, users.len()),
                moved: moved_to(
                    context.moved,
                    context.ir.values.committed.len(),
                    old_value,
                    target,
                ),
                ..context
            },
            users,
            users.len(),
        )
    }
}

proof fn readers_are_of_the_ir(a: ContextView, b: ContextView, value: ValueId, n: nat)
    requires
        a.ir == b.ir,
    ensures
        readers(a, value, n) == readers(b, value, n),
    decreases n,
{
    if n > 0 {
        readers_are_of_the_ir(a, b, value, (n - 1) as nat);
    }
}

/// The readers of a value are in order, and all there are.
pub proof fn readers_are_all(context: ContextView, value: ValueId, n: nat)
    requires
        n <= u32::MAX,
    ensures
        ascending(readers(context, value, n)),
        forall|op: OpId| #[trigger]
            readers(context, value, n).contains(op) <==> op.0 < n && context.reads(op, value),
    decreases n,
{
    if n > 0 {
        let before = readers(context, value, (n - 1) as nat);
        let last = OpId((n - 1) as u32);
        readers_are_all(context, value, (n - 1) as nat);
        crate::seqs::push_contains(before, last);
        assert forall|op: OpId| #[trigger] readers(context, value, n).contains(op) <==> op.0 < n
            && context.reads(op, value) by {
            if op.0 == n - 1 {
                assert(op == last);
            }
            assert(before.contains(op) <==> op.0 < n - 1 && context.reads(op, value));
        }
        assert forall|i: int| 0 <= i < before.len() implies (#[trigger] before[i]).0 < n - 1 by {
            assert(before.contains(before[i]));
        }
    }
}

/// Two lists in order with the same entries are the same list.
proof fn ascending_lists_agree(a: Seq<OpId>, b: Seq<OpId>)
    requires
        ascending(a),
        ascending(b),
        forall|op: OpId| #[trigger] a.contains(op) <==> b.contains(op),
    ensures
        a == b,
    decreases a.len(),
{
    if a.len() == 0 {
        if b.len() > 0 {
            assert(b.contains(b[0]));
            assert(a.contains(b[0]));
        }
        assert(a =~= b);
    } else if b.len() == 0 {
        assert(a.contains(a[0]));
    } else {
        let x = a.last();
        let y = b.last();
        assert(a.contains(x));
        assert(b.contains(y));
        assert(a.contains(y));
        let i = choose|i: int| 0 <= i < b.len() && b[i] == x;
        let j = choose|j: int| 0 <= j < a.len() && a[j] == y;
        assert(x.0 <= y.0) by {
            if i < b.len() - 1 {
                assert(b[i].0 < b[b.len() - 1].0);
            }
        }
        assert(y.0 <= x.0) by {
            if j < a.len() - 1 {
                assert(a[j].0 < a[a.len() - 1].0);
            }
        }
        assert(x == y);
        let c = a.drop_last();
        let d = b.drop_last();
        assert forall|op: OpId| #[trigger] c.contains(op) <==> d.contains(op) by {
            if c.contains(op) {
                let k = choose|k: int| 0 <= k < c.len() && c[k] == op;
                assert(a[k] == op);
                assert(a[k].0 < a[a.len() - 1].0);
                assert(a.contains(op));
                let l = choose|l: int| 0 <= l < b.len() && b[l] == op;
                assert(d[l] == op);
            }
            if d.contains(op) {
                let k = choose|k: int| 0 <= k < d.len() && d[k] == op;
                assert(b[k] == op);
                assert(b[k].0 < b[b.len() - 1].0);
                assert(b.contains(op));
                assert(a.contains(op));
                let l = choose|l: int| 0 <= l < a.len() && a[l] == op;
                assert(c[l] == op);
            }
        }
        ascending_lists_agree(c, d);
        assert(a =~= c.push(x));
        assert(b =~= d.push(y));
    }
}

/// Replacing the operands of one operation leaves every other as it was.
proof fn put_operands_elsewhere(ir: IrView, id: OpId, operands: Seq<ValueId>, other: OpId)
    requires
        ir.op(id) is Some,
    ensures
        other != id ==> ir.put_operands(id, operands).op(other) == ir.op(other),
        ir.put_operands(id, operands).op(id) == Some(OpView { operands, ..ir.op(id)->0 }),
{
    if other != id {
        assert(other.0 != id.0);
    }
}

impl Context {
    fn set_operand_groups(
        &mut self,
        id: OpId,
        operands: Vec<ValueId>,
        attributes: Vec<NamedAttribute>,
    )
        requires
            old(self).inv(),
            old(self)@.ir.op(id) is Some,
            forall|i: int| 0 <= i < operands@.len() ==> (#[trigger] operands@[i]).0 < u32::MAX,
        ensures
            final(self).inv(),
            final(self)@ == old(self)@.with_operand_groups(
                id,
                operands@,
                named_views(attributes@),
            ),
    {
        let ghost before = self@;
        self.ir.set_operands(id, operands);
        let mut op: OpInstance = self.ir.get_op(id).unwrap().copy();
        op.attributes = attributes;
        self.ir.put_op(id, op);
        self.journal.edit_op(&self.ir, id);
    }

    proof fn held_operands_minted(&self, id: OpId)
        requires
            self.inv(),
            self@.ir.op(id) is Some,
        ensures
            forall|i: int|
                0 <= i < self@.ir.op(id)->0.operands.len() ==> (
                #[trigger] self@.ir.op(id)->0.operands[i]).0 < u32::MAX,
    {
        self.inv_wf();
        self.ir.operand_lists_fit(id);
        assert forall|i: int| 0 <= i < self@.ir.op(id)->0.operands.len() implies (
        #[trigger] self@.ir.op(id)->0.operands[i]).0 < u32::MAX by {
            operands_are_minted(self@.ir, id, i);
        }
    }

    /// Appends `value` to `op`'s operands, keeping the segment sizes that
    /// describe the trailing variadic group in step.
    pub fn append_operand(&mut self, op: OpId, value: ValueId)
        requires
            old(self).inv(),
            value.0 < u32::MAX,
        ensures
            final(self).inv(),
            final(self)@ == match old(self)@.ir.op(op) {
                Some(held) => old(self)@.with_operand_groups(
                    op,
                    held.operands.push(value),
                    last_segment_grown(held.attributes),
                ),
                None => old(self)@,
            },
    {
        let held: OpInstance = match self.ir.get_op(op) {
            Some(held) => held.copy(),
            None => {
                return;
            },
        };
        let mut attributes = held.attributes;
        grow_last_segment(&mut attributes);
        let mut operands = held.operands;
        proof {
            self.held_operands_minted(op);
        }
        let ghost listed = operands@;
        operands.push(value);
        proof {
            assert(listed == self@.ir.op(op)->0.operands);
            assert forall|i: int| 0 <= i < operands@.len() implies (#[trigger] operands@[i]).0
                < u32::MAX by {
                if i < listed.len() {
                    assert(operands@[i] == listed[i]);
                }
            }
        }
        self.set_operand_groups(op, operands, attributes);
    }

    /// Drops the operand at `index`, and with it the use it made.
    pub fn remove_operand(&mut self, op: OpId, index: usize)
        requires
            old(self).inv(),
            old(self)@.ir.op(op) is Some ==> index < old(self)@.ir.op(op)->0.operands.len(),
        ensures
            final(self).inv(),
            final(self)@ == match old(self)@.ir.op(op) {
                Some(held) => old(self)@.with_operand_groups(
                    op,
                    held.operands.remove(index as int),
                    segment_shrunk(held.attributes, index as nat),
                ),
                None => old(self)@,
            },
    {
        let held: OpInstance = match self.ir.get_op(op) {
            Some(held) => held.copy(),
            None => {
                return;
            },
        };
        let mut attributes = held.attributes;
        shrink_segment_holding(&mut attributes, index);
        let mut operands = held.operands;
        proof {
            self.held_operands_minted(op);
        }
        let ghost listed = operands@;
        let _ = operands.remove(index);
        proof {
            assert forall|i: int| 0 <= i < operands@.len() implies (#[trigger] operands@[i]).0
                < u32::MAX by {
                if i < index {
                    assert(operands@[i] == listed[i]);
                } else {
                    assert(operands@[i] == listed[i + 1]);
                }
            }
        }
        self.set_operand_groups(op, operands, attributes);
    }

    /// Puts `value` at position `index` of `op`'s operands, inside the declared
    /// operand group that ends at `group_end`, so the segment sizes stay in
    /// step.
    pub fn insert_operand_at(&mut self, op: OpId, index: usize, value: ValueId, group_end: usize)
        requires
            old(self).inv(),
            value.0 < u32::MAX,
            old(self)@.ir.op(op) is Some ==> index <= old(self)@.ir.op(op)->0.operands.len(),
        ensures
            final(self).inv(),
            final(self)@ == match old(self)@.ir.op(op) {
                Some(held) => old(self)@.with_operand_groups(
                    op,
                    held.operands.insert(index as int, value),
                    segment_grown(held.attributes, group_end as nat),
                ),
                None => old(self)@,
            },
    {
        let held: OpInstance = match self.ir.get_op(op) {
            Some(held) => held.copy(),
            None => {
                return;
            },
        };
        let mut attributes = held.attributes;
        grow_segment_ending_at(&mut attributes, group_end);
        let mut operands = held.operands;
        proof {
            self.held_operands_minted(op);
        }
        let ghost listed = operands@;
        operands.insert(index, value);
        proof {
            assert forall|i: int| 0 <= i < operands@.len() implies (#[trigger] operands@[i]).0
                < u32::MAX by {
                if i < index {
                    assert(operands@[i] == listed[i]);
                } else if i > index {
                    assert(operands@[i] == listed[i - 1]);
                }
            }
        }
        self.set_operand_groups(op, operands, attributes);
    }

    /// Appends a dependency to `op`'s operands.
    pub fn append_dep_operand(&mut self, op: OpId, observed: ValueId)
        requires
            old(self).inv(),
            observed.0 < u32::MAX,
            old(self)@.ir.op(op) is Some,
            old(self)@.ir.op(op)->0.dep_operands < u16::MAX,
        ensures
            final(self).inv(),
            ({
                let held = old(self)@.ir.op(op)->0;
                let moved = old(self)@.ir.put_operands(op, held.operands.push(observed));
                final(self)@ == old(self)@.with_ir(
                    moved.put_op(
                        op,
                        OpView {
                            dep_operands: (held.dep_operands + 1) as u16,
                            ..moved.op(op)->0
                        },
                    ),
                ).reported_op(op)
            }),
    {
        proof {
            self.held_operands_minted(op);
        }
        let mut operands: Vec<ValueId> = copy_list(&self.ir.get_op(op).unwrap().operands);
        let ghost listed = operands@;
        operands.push(observed);
        proof {
            assert forall|i: int| 0 <= i < operands@.len() implies (#[trigger] operands@[i]).0
                < u32::MAX by {
                if i < listed.len() {
                    assert(operands@[i] == listed[i]);
                }
            }
        }
        self.ir.set_operands(op, operands);
        let mut held: OpInstance = self.ir.get_op(op).unwrap().copy();
        held.dep_operands = held.dep_operands + 1;
        self.ir.put_op(op, held);
        self.journal.edit_op(&self.ir, op);
    }

    /// Gives `op` one more dependency result.
    pub fn append_dep_result(&mut self, op: OpId) -> (id: ValueId)
        requires
            old(self).inv(),
            old(self)@.ir.values.now.len() < u32::MAX,
            old(self)@.ir.op(op) is Some,
            old(self)@.ir.op(op)->0.dep_results < u16::MAX,
        ensures
            final(self).inv(),
            id.0 == old(self)@.ir.values.now.len(),
            ({
                let held = old(self)@.ir.op(op)->0;
                let minted = old(self)@.with_value(crate::ids::state_type(), Some(op));
                final(self)@ == minted.with_ir(
                    minted.ir.put_op(
                        op,
                        OpView {
                            results: held.results.push(id),
                            dep_results: (held.dep_results + 1) as u16,
                            ..held
                        },
                    ),
                ).reported_op(op)
            }),
    {
        let id = self.create_value(TypeId::state(), Some(op)).id;
        let mut held: OpInstance = self.ir.get_op(op).unwrap().copy();
        held.results.push(id);
        held.dep_results = held.dep_results + 1;
        self.ir.put_op(op, held);
        self.journal.edit_op(&self.ir, op);
        id
    }

    /// Replaces every SSA operand use of `old_value` with `new_value`.
    ///
    /// Every reading slot answers `new_value` from here on, including slots of
    /// operations a rewrite has taken out of the tree or has not put in it
    /// yet. Attributes naming a value are left untouched: they record where
    /// the ABI places a value, not a read of it.
    ///
    /// A committed value that was replaced since the last commit answers by its
    /// replacement, so replacing another value by it comes to the same.
    pub fn replace_value_uses(&mut self, old_value: ValueId, new_value: ValueId)
        requires
            old(self).inv(),
            new_value.0 < u32::MAX,
            old(self)@.replaceable(old_value, new_value),
        ensures
            final(self).inv(),
            final(self)@ == value_replaced(old(self)@, old_value, new_value),
            old_value != new_value ==> ({
                let target = old(self)@.resolve(new_value);
                &&& use_list(final(self)@.ir.uses, old_value).len() == 0
                &&& use_list(final(self)@.ir.uses, target).to_multiset() == use_list(
                    old(self)@.ir.uses,
                    target,
                ).to_multiset().add(use_list(old(self)@.ir.uses, old_value).to_multiset())
            }),
    {
        if old_value == new_value {
            return;
        }
        proof {
            self.inv_wf();
            resolving_settles(self@.moved, new_value);
        }
        let ghost start = *self;
        let ghost before = self@;
        let ghost given = new_value;
        let new_value = self.resolved_value(new_value);
        self.move_value(old_value, new_value);
        proof {
            readers_are_of_the_ir(before, self@, old_value, before.ir.ops.now.len());
        }
        self.move_reads(old_value, new_value);
        proof {
            replaced_uses_move(&start, &*self, old_value, given);
        }
    }

    /// The value that answers for `value`.
    pub fn resolved_value(&self, value: ValueId) -> (r: ValueId)
        requires
            self.inv(),
        ensures
            r == self@.resolve(value),
    {
        let mut i: usize = self.moved.len();
        assert(self.moved@.take(i as int) =~= self.moved@);
        while i > 0
            invariant
                i <= self.moved.len(),
                self@.resolve(value) == resolved(self.moved@.take(i as int), value),
            decreases i,
        {
            let ghost here = self.moved@.take(i as int);
            i -= 1;
            assert(here.drop_last() =~= self.moved@.take(i as int));
            if self.moved[i].0 == value {
                return self.moved[i].1;
            }
        }
        value
    }

    fn move_value(&mut self, value: ValueId, target: ValueId)
        requires
            old(self).inv(),
            target.0 < u32::MAX,
            target != value,
            old(self)@.resolve(target) == target,
        ensures
            final(self).inv(),
            final(self)@ == (ContextView {
                moved: moved_to(
                    old(self)@.moved,
                    old(self)@.ir.values.committed.len(),
                    value,
                    target,
                ),
                ..old(self)@
            }),
    {
        if self.resolved_value(value) != value {
            return;
        }
        proof {
            moving_keeps_one_hop(
                self@.moved,
                self@.ir.values.committed.len(),
                value,
                target,
            );
        }
        let ghost before = self@;
        let mut followed: Vec<(ValueId, ValueId)> = Vec::new();
        let mut i: usize = 0;
        while i < self.moved.len()
            invariant
                i <= self.moved.len(),
                followed.len() == i,
                forall|k: int|
                    0 <= k < i ==> #[trigger] followed@[k] == if self.moved@[k].1 == value {
                        (self.moved@[k].0, target)
                    } else {
                        self.moved@[k]
                    },
            decreases self.moved.len() - i,
        {
            let (source, answer) = self.moved[i];
            followed.push(
                if answer == value {
                    (source, target)
                } else {
                    (source, answer)
                },
            );
            i += 1;
        }
        if self.ir.is_committed_value(value) {
            followed.push((value, target));
        }
        assert(followed@ =~= moved_to(
            before.moved,
            before.ir.values.committed.len(),
            value,
            target,
        ));
        self.moved = followed;
    }

    fn move_reads(&mut self, old_value: ValueId, new_value: ValueId)
        requires
            old(self).inv(),
            new_value.0 < u32::MAX,
        ensures
            final(self).inv(),
            ({
                let before = old(self)@;
                let users = readers(before, old_value, before.ir.ops.now.len());
                final(self)@ == ops_reported(
                    before.with_ir(
                        reads_replaced(before.ir, users, old_value, new_value, users.len()),
                    ),
                    users,
                    users.len(),
                )
            }),
    {
        let ghost before = self@;
        let reading = self.users_of(old_value);
        let users = sorted_unique(&reading);
        proof {
            self.inv_wf();
            self.users_are_readers(old_value, reading@);
            assert forall|op: OpId| #[trigger] users@.contains(op) <==> before.reads(
                op,
                old_value,
            ) by {
                assert(reading@.contains(op) <==> before.reads(op, old_value));
            }
            assert forall|j: int| 0 <= j < users@.len() implies self@.ir.op(
                #[trigger] users@[j],
            ) is Some by {
                assert(users@.contains(users@[j]));
            }
            let all = readers(before, old_value, before.ir.ops.now.len());
            readers_are_all(before, old_value, before.ir.ops.now.len());
            assert forall|op: OpId| #[trigger] users@.contains(op) <==> all.contains(op) by {}
            ascending_lists_agree(users@, all);
        }
        let mut i: usize = 0;
        while i < users.len()
            invariant
                i <= users.len(),
                self.inv(),
                new_value.0 < u32::MAX,
                ascending(users@),
                self@ == before.with_ir(
                    reads_replaced(before.ir, users@, old_value, new_value, i as nat),
                ),
                forall|j: int| i <= j < users@.len() ==> self@.ir.op(#[trigger] users@[j]) is Some,
            decreases users.len() - i,
        {
            let op = users[i];
            assert(self@.ir.op(users@[i as int]) is Some);
            let held: &Vec<ValueId> = self.operands_of(op);
            let mut operands: Vec<ValueId> = Vec::new();
            let mut j: usize = 0;
            while j < held.len()
                invariant
                    j <= held.len(),
                    operands.len() == j,
                    forall|k: int|
                        0 <= k < j ==> #[trigger] operands@[k] == if held@[k] == old_value {
                            new_value
                        } else {
                            held@[k]
                        },
                decreases held.len() - j,
            {
                operands.push(
                    if held[j] == old_value {
                        new_value
                    } else {
                        held[j]
                    },
                );
                j += 1;
            }
            assert(operands@ =~= substituted(held@, old_value, new_value));
            proof {
                self.held_operands_minted(op);
                assert forall|k: int| 0 <= k < operands@.len() implies (#[trigger] operands@[k]).0
                    < u32::MAX by {
                    assert(held@[k].0 < u32::MAX);
                }
            }
            let ghost here = self@.ir;
            self.ir.set_operands(op, operands);
            proof {
                assert forall|j: int| i + 1 <= j < users@.len() implies self@.ir.op(
                    #[trigger] users@[j],
                ) is Some by {
                    assert(users@[i as int].0 < users@[j].0);
                    put_operands_elsewhere(here, op, operands@, users@[j]);
                    assert(here.op(users@[j]) is Some);
                }
            }
            i += 1;
        }
        let ghost replaced = self@;
        let mut i: usize = 0;
        while i < users.len()
            invariant
                i <= users.len(),
                self.inv(),
                self@ == ops_reported(replaced, users@, i as nat),
                self@.ir == replaced.ir,
            decreases users.len() - i,
        {
            self.journal.edit_op(&self.ir, users[i]);
            i += 1;
        }
    }

    proof fn users_are_readers(&self, value: ValueId, reading: Seq<OpId>)
        requires
            self.inv(),
            reading == use_list(self@.ir.uses, value).map_values(|u: Use| u.op),
        ensures
            forall|op: OpId| #[trigger] reading.contains(op) <==> self@.reads(op, value),
    {
        self.inv_wf();
        let list = use_list(self@.ir.uses, value);
        assert forall|op: OpId| #[trigger] reading.contains(op) <==> self@.reads(op, value) by {
            if reading.contains(op) {
                let k = choose|k: int| 0 <= k < reading.len() && reading[k] == op;
                assert(list[k].op == op);
                assert(list.contains(list[k]));
                assert(slot_holds(self@.ir.ops, list[k], value));
                assert(self@.ir.op(op)->0.operands[list[k].index as int] == value);
            }
            if self@.reads(op, value) {
                self.ir.operand_lists_fit(op);
                let operands = self@.ir.op(op)->0.operands;
                let k = choose|k: int| 0 <= k < operands.len() && operands[k] == value;
                let u = Use { op, index: k as usize };
                assert(slot_holds(self@.ir.ops, u, value));
                assert(list.contains(u));
                let j = choose|j: int| 0 <= j < list.len() && list[j] == u;
                assert(reading[j] == op);
            }
        }
    }
}

} // verus!

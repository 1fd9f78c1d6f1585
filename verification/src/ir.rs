//! The records of the IR and the lists that say where a value is read.
use vstd::prelude::*;
use crate::attributes::copy_attributes;
use crate::attributes::named_views;
use crate::attributes::AttrView;
use crate::attributes::NamedAttribute;
use crate::ids::state_type;
use crate::ids::BlockId;
use crate::ids::OpId;
use crate::ids::OpNameId;
use crate::ids::RegionId;
use crate::ids::TypeId;
use crate::ids::ValueId;
use crate::overlay::LayerView;
use crate::overlay::Layered;
use crate::overlay::OverlayCensus;
use crate::overlay::Record;

verus! {

/// A value: something an operation produces, or a block or region takes.
#[derive(Debug, Clone, Copy, PartialEq, Eq, Structural)]
pub struct Value {
    pub id: ValueId,
    pub ty: TypeId,
    /// The operation that produces it, or `None` for an argument.
    pub defining_op: Option<OpId>,
}

impl Value {
    pub fn new(id: ValueId, ty: TypeId, defining_op: Option<OpId>) -> (v: Self)
        ensures
            v == (Value { id, ty, defining_op }),
    {
        Value { id, ty, defining_op }
    }

    pub fn id(&self) -> (r: ValueId)
        ensures
            r == self.id,
    {
        self.id
    }

    pub fn ty(&self) -> (r: TypeId)
        ensures
            r == self.ty,
    {
        self.ty
    }

    pub fn defining_op(&self) -> (r: Option<OpId>)
        ensures
            r == self.defining_op,
    {
        self.defining_op
    }

    /// Whether the value names a memory state, and so carries no data.
    pub fn is_state(&self) -> (r: bool)
        ensures
            r == (self.ty == state_type()),
    {
        self.ty == TypeId::state()
    }
}

/// What holds an operation.
#[derive(Debug, Clone, Copy, PartialEq, Eq, Structural)]
pub enum Parent {
    Block(BlockId),
    Region(RegionId),
}

/// A value and the block or region it is an argument of.
#[derive(Debug, Clone, Copy, PartialEq, Eq, Structural)]
pub struct ValueEntry {
    pub value: Value,
    pub block: Option<BlockId>,
    pub region: Option<RegionId>,
}

/// One operand slot of an operation.
#[derive(Debug, Clone, Copy, PartialEq, Eq, Structural)]
pub struct Use {
    pub op: OpId,
    pub index: usize,
}

/// An operation's stored state.
#[derive(Debug)]
pub struct OpInstance {
    pub name: OpNameId,
    /// Every operand, the trailing `dep_operands` of which are dependencies;
    /// likewise the results.
    pub operands: Vec<ValueId>,
    pub results: Vec<ValueId>,
    pub regions: Vec<RegionId>,
    pub dep_operands: u16,
    pub dep_results: u16,
    pub attributes: Vec<NamedAttribute>,
    pub parent: Option<Parent>,
}

/// A basic block's stored state.
#[derive(Debug)]
pub struct Block {
    pub arguments: Vec<Value>,
    pub operations: Vec<OpId>,
    /// Discardable metadata scoped to this block, printed in the block label.
    pub attributes: Vec<NamedAttribute>,
    pub parent: Option<RegionId>,
}

/// What a region holds.
#[derive(Debug)]
pub enum RegionBody {
    /// Blocks in order, the first of which is the entry.
    Blocks(Vec<BlockId>),
    /// Operations whose dependencies alone say what runs before what.
    Nodes { ports: Vec<Value>, ops: Vec<OpId>, results: Vec<ValueId> },
}

/// A region's stored state.
#[derive(Debug)]
pub struct Region {
    pub parent_op: Option<OpId>,
    pub body: RegionBody,
}

/// The operand slots that hold a value, in the order they were recorded.
#[derive(Debug)]
pub struct UseList {
    pub uses: Vec<Use>,
}

pub ghost struct OpView {
    pub name: OpNameId,
    pub operands: Seq<ValueId>,
    pub results: Seq<ValueId>,
    pub regions: Seq<RegionId>,
    pub dep_operands: u16,
    pub dep_results: u16,
    pub attributes: Seq<(Seq<char>, AttrView)>,
    pub parent: Option<Parent>,
}

pub ghost struct BlockView {
    pub arguments: Seq<Value>,
    pub operations: Seq<OpId>,
    pub attributes: Seq<(Seq<char>, AttrView)>,
    pub parent: Option<RegionId>,
}

pub ghost enum BodyView {
    Blocks(Seq<BlockId>),
    Nodes(Seq<Value>, Seq<OpId>, Seq<ValueId>),
}

pub ghost struct RegionView {
    pub parent_op: Option<OpId>,
    pub body: BodyView,
}

impl View for ValueEntry {
    type V = ValueEntry;

    open spec fn view(&self) -> ValueEntry {
        *self
    }
}

impl View for OpInstance {
    type V = OpView;

    open spec fn view(&self) -> OpView {
        OpView {
            name: self.name,
            operands: self.operands@,
            results: self.results@,
            regions: self.regions@,
            dep_operands: self.dep_operands,
            dep_results: self.dep_results,
            attributes: named_views(self.attributes@),
            parent: self.parent,
        }
    }
}

impl View for Block {
    type V = BlockView;

    open spec fn view(&self) -> BlockView {
        BlockView {
            arguments: self.arguments@,
            operations: self.operations@,
            attributes: named_views(self.attributes@),
            parent: self.parent,
        }
    }
}

impl View for RegionBody {
    type V = BodyView;

    open spec fn view(&self) -> BodyView {
        match self {
            RegionBody::Blocks(blocks) => BodyView::Blocks(blocks@),
            RegionBody::Nodes { ports, ops, results } => BodyView::Nodes(ports@, ops@, results@),
        }
    }
}

impl View for Region {
    type V = RegionView;

    open spec fn view(&self) -> RegionView {
        RegionView { parent_op: self.parent_op, body: self.body@ }
    }
}

impl View for UseList {
    type V = Seq<Use>;

    open spec fn view(&self) -> Seq<Use> {
        self.uses@
    }
}

/// A copy of a list of ids or other plain data.
pub fn copy_list<T: Copy>(list: &Vec<T>) -> (r: Vec<T>)
    ensures
        r@ == list@,
{
    let mut r: Vec<T> = Vec::new();
    let mut i: usize = 0;
    while i < list.len()
        invariant
            i <= list.len(),
            r@ == list@.take(i as int),
        decreases list.len() - i,
    {
        r.push(list[i]);
        assert(r@ =~= list@.take(i + 1));
        i += 1;
    }
    assert(list@.take(i as int) =~= list@);
    r
}

impl Record for ValueEntry {
    fn copy(&self) -> (r: Self) {
        *self
    }
}

impl Record for OpInstance {
    fn copy(&self) -> (r: Self) {
        OpInstance {
            name: self.name,
            operands: copy_list(&self.operands),
            results: copy_list(&self.results),
            regions: copy_list(&self.regions),
            dep_operands: self.dep_operands,
            dep_results: self.dep_results,
            attributes: copy_attributes(&self.attributes),
            parent: self.parent,
        }
    }
}

impl Record for Block {
    fn copy(&self) -> (r: Self) {
        Block {
            arguments: copy_list(&self.arguments),
            operations: copy_list(&self.operations),
            attributes: copy_attributes(&self.attributes),
            parent: self.parent,
        }
    }
}

impl Record for Region {
    fn copy(&self) -> (r: Self) {
        let body = match &self.body {
            RegionBody::Blocks(blocks) => RegionBody::Blocks(copy_list(blocks)),
            RegionBody::Nodes { ports, ops, results } => RegionBody::Nodes {
                ports: copy_list(ports),
                ops: copy_list(ops),
                results: copy_list(results),
            },
        };
        Region { parent_op: self.parent_op, body }
    }
}

impl Record for UseList {
    fn copy(&self) -> (r: Self) {
        UseList { uses: copy_list(&self.uses) }
    }
}

/// A count, or the largest one the machine can hold.
pub open spec fn capped(n: nat) -> nat {
    if n <= usize::MAX {
        n
    } else {
        usize::MAX as nat
    }
}

/// The whole IR: every record, and where each value is read.
pub ghost struct IrView {
    pub ops: LayerView<OpView>,
    pub values: LayerView<ValueEntry>,
    pub blocks: LayerView<BlockView>,
    pub regions: LayerView<RegionView>,
    pub uses: LayerView<Seq<Use>>,
}

/// The slots recorded for `v`.
pub open spec fn use_list(uses: LayerView<Seq<Use>>, v: ValueId) -> Seq<Use> {
    match uses.at(v.0) {
        Some(list) => list,
        None => Seq::empty(),
    }
}

/// The list without the first entry that is `u`.
pub open spec fn without(list: Seq<Use>, u: Use) -> Seq<Use>
    decreases list.len(),
{
    if list.len() == 0 {
        list
    } else if list[0] == u {
        list.skip(1)
    } else {
        seq![list[0]] + without(list.skip(1), u)
    }
}

/// The use lists with one for every value up to `v`.
pub open spec fn grown(uses: LayerView<Seq<Use>>, v: ValueId) -> LayerView<Seq<Use>>
    decreases v.0 + 1 - uses.now.len(),
{
    if uses.now.len() > v.0 {
        uses
    } else {
        grown(uses.added(Seq::empty()), v)
    }
}

/// The use lists with the slot `u` recorded as holding `v`.
pub open spec fn recorded(uses: LayerView<Seq<Use>>, v: ValueId, u: Use) -> LayerView<Seq<Use>> {
    grown(uses, v).put(v.0, use_list(uses, v).push(u))
}

/// The use lists without the slot `u` recorded for `v`.
pub open spec fn forgotten(uses: LayerView<Seq<Use>>, v: ValueId, u: Use) -> LayerView<Seq<Use>> {
    if uses.at(v.0) is Some {
        uses.put(v.0, without(use_list(uses, v), u))
    } else {
        uses
    }
}

/// The use lists with the first `n` operand slots of `op` recorded.
pub open spec fn slots_recorded(
    uses: LayerView<Seq<Use>>,
    op: OpId,
    operands: Seq<ValueId>,
    n: nat,
) -> LayerView<Seq<Use>>
    decreases n,
{
    if n == 0 {
        uses
    } else {
        recorded(
            slots_recorded(uses, op, operands, (n - 1) as nat),
            operands[n - 1],
            Use { op, index: (n - 1) as usize },
        )
    }
}

/// The use lists with the first `n` operand slots of `op` forgotten.
pub open spec fn slots_forgotten(
    uses: LayerView<Seq<Use>>,
    op: OpId,
    operands: Seq<ValueId>,
    n: nat,
) -> LayerView<Seq<Use>>
    decreases n,
{
    if n == 0 {
        uses
    } else {
        forgotten(
            slots_forgotten(uses, op, operands, (n - 1) as nat),
            operands[n - 1],
            Use { op, index: (n - 1) as usize },
        )
    }
}

/// Whether the operand slot `u` of a live operation holds `v`.
pub open spec fn slot_holds(ops: LayerView<OpView>, u: Use, v: ValueId) -> bool {
    match ops.at(u.op.0) {
        Some(op) => u.index < op.operands.len() && op.operands[u.index as int] == v,
        None => false,
    }
}

/// The use lists say exactly what live operands say, each slot once.
pub open spec fn uses_agree(ops: LayerView<OpView>, uses: LayerView<Seq<Use>>) -> bool {
    &&& forall|v: ValueId, u: Use|
        #![trigger use_list(uses, v).contains(u)]
        use_list(uses, v).contains(u) <==> slot_holds(ops, u, v)
    &&& forall|v: ValueId| #[trigger] use_list(uses, v).no_duplicates()
    &&& forall|i: int| 0 <= i < uses.now.len() ==> #[trigger] uses.now[i] is Some
}

/// The use lists say of every operation but `op` what its operands say, and of
/// `op` that its slots `lo..hi` hold `slots`.
spec fn uses_agree_but(
    ops: LayerView<OpView>,
    uses: LayerView<Seq<Use>>,
    op: OpId,
    slots: Seq<ValueId>,
    lo: int,
    hi: int,
) -> bool {
    &&& forall|v: ValueId, u: Use|
        #![trigger use_list(uses, v).contains(u)]
        use_list(uses, v).contains(u) <==> if u.op == op {
            lo <= u.index < hi && slots[u.index as int] == v
        } else {
            slot_holds(ops, u, v)
        }
    &&& forall|v: ValueId| #[trigger] use_list(uses, v).no_duplicates()
    &&& forall|i: int| 0 <= i < uses.now.len() ==> #[trigger] uses.now[i] is Some
}

proof fn without_members(list: Seq<Use>, u: Use)
    requires
        list.no_duplicates(),
    ensures
        without(list, u).no_duplicates(),
        forall|x: Use| #[trigger] without(list, u).contains(x) <==> list.contains(x) && x != u,
        !list.contains(u) ==> without(list, u) == list,
    decreases list.len(),
{
    if list.len() > 0 {
        let rest = list.skip(1);
        assert(rest.no_duplicates()) by {
            assert forall|i: int, j: int| 0 <= i < rest.len() && 0 <= j < rest.len() && i != j implies rest[i]
                != rest[j] by {
                assert(rest[i] == list[i + 1]);
                assert(rest[j] == list[j + 1]);
            }
        }
        assert forall|x: Use| rest.contains(x) implies x != list[0] by {
            let j = choose|j: int| 0 <= j < rest.len() && rest[j] == x;
            assert(list[j + 1] == x);
        }
        assert forall|x: Use| list.contains(x) <==> x == list[0] || rest.contains(x) by {
            if list.contains(x) {
                let j = choose|j: int| 0 <= j < list.len() && list[j] == x;
                if j > 0 {
                    assert(rest[j - 1] == x);
                }
            }
            if rest.contains(x) {
                let j = choose|j: int| 0 <= j < rest.len() && rest[j] == x;
                assert(list[j + 1] == x);
            }
            if x == list[0] {
                assert(list.contains(list[0]));
            }
        }
        if list[0] != u {
            without_members(rest, u);
            let less = without(rest, u);
            let out = without(list, u);
            assert(out =~= seq![list[0]] + less);
            assert forall|x: Use| #[trigger] out.contains(x) <==> list.contains(x) && x != u by {
                if out.contains(x) {
                    let j = choose|j: int| 0 <= j < out.len() && out[j] == x;
                    if j > 0 {
                        assert(less[j - 1] == x);
                        assert(less.contains(x));
                    }
                }
                if list.contains(x) && x != u {
                    if x == list[0] {
                        assert(out[0] == x);
                    } else {
                        assert(less.contains(x));
                        let j = choose|j: int| 0 <= j < less.len() && less[j] == x;
                        assert(out[j + 1] == x);
                    }
                }
            }
            assert forall|i: int, j: int| 0 <= i < out.len() && 0 <= j < out.len() && i != j implies out[i]
                != out[j] by {
                if i > 0 && j > 0 {
                    assert(less[i - 1] != less[j - 1]);
                } else if i > 0 {
                    assert(less.contains(less[i - 1]));
                } else {
                    assert(less.contains(less[j - 1]));
                }
            }
            if !list.contains(u) {
                assert(less == rest);
                assert(out =~= list);
            }
        } else {
            assert(list.contains(list[0]));
        }
    }
}

proof fn without_at(list: Seq<Use>, u: Use, i: int)
    requires
        0 <= i < list.len(),
        list[i] == u,
        forall|j: int| 0 <= j < i ==> list[j] != u,
    ensures
        without(list, u) == list.remove(i),
    decreases i,
{
    if i == 0 {
        assert(list.skip(1) =~= list.remove(0));
    } else {
        let rest = list.skip(1);
        assert forall|j: int| 0 <= j < i - 1 implies rest[j] != u by {
            assert(rest[j] == list[j + 1]);
        }
        without_at(rest, u, i - 1);
        assert(seq![list[0]] + rest.remove(i - 1) =~= list.remove(i));
    }
}

proof fn without_none(list: Seq<Use>, u: Use)
    requires
        forall|j: int| 0 <= j < list.len() ==> list[j] != u,
    ensures
        without(list, u) == list,
    decreases list.len(),
{
    if list.len() > 0 {
        let rest = list.skip(1);
        assert forall|j: int| 0 <= j < rest.len() implies rest[j] != u by {
            assert(rest[j] == list[j + 1]);
        }
        without_none(rest, u);
        assert(seq![list[0]] + rest =~= list);
    }
}

proof fn grown_lists(uses: LayerView<Seq<Use>>, v: ValueId)
    requires
        uses.wf(),
        v.0 < u32::MAX,
        forall|i: int| 0 <= i < uses.now.len() ==> #[trigger] uses.now[i] is Some,
    ensures
        grown(uses, v).wf(),
        grown(uses, v).now.len() > v.0,
        grown(uses, v).committed == uses.committed,
        grown(uses, v).stamps == uses.stamps,
        forall|i: int| 0 <= i < grown(uses, v).now.len() ==> #[trigger] grown(uses, v).now[i] is Some,
        forall|w: ValueId| #[trigger] use_list(grown(uses, v), w) == use_list(uses, w),
    decreases v.0 + 1 - uses.now.len(),
{
    if uses.now.len() <= v.0 {
        let more = uses.added(Seq::empty());
        assert forall|i: int| 0 <= i < more.now.len() implies #[trigger] more.now[i] is Some by {
            if i < uses.now.len() {
                assert(more.now[i] == uses.now[i]);
            }
        }
        assert(more.wf()) by {
            assert forall|i: int|
                #![trigger more.touched.contains(i)]
                0 <= i < more.now.len() && !more.touched.contains(i) implies i
                < more.committed.len() && more.now[i] == more.committed[i] by {
                assert(i != uses.now.len());
                assert(!uses.touched.contains(i));
                assert(more.now[i] == uses.now[i]);
            }
            assert forall|i: int| #[trigger] more.touched.contains(i) implies 0 <= i
                < more.now.len() by {
                if i != uses.now.len() {
                    assert(uses.touched.contains(i));
                }
            }
        }
        assert forall|w: ValueId| #[trigger] use_list(more, w) == use_list(uses, w) by {}
        grown_lists(more, v);
        assert forall|w: ValueId| #[trigger] use_list(grown(uses, v), w) == use_list(uses, w) by {
            assert(use_list(more, w) == use_list(uses, w));
        }
    }
}

proof fn put_list(uses: LayerView<Seq<Use>>, v: ValueId, list: Seq<Use>)
    requires
        uses.wf(),
        v.0 < uses.now.len(),
        forall|i: int| 0 <= i < uses.now.len() ==> #[trigger] uses.now[i] is Some,
    ensures
        forall|i: int|
            0 <= i < uses.put(v.0, list).now.len() ==> #[trigger] uses.put(v.0, list).now[i] is Some,
        use_list(uses.put(v.0, list), v) == list,
        forall|w: ValueId| w != v ==> #[trigger] use_list(uses.put(v.0, list), w) == use_list(uses, w),
{
    let out = uses.put(v.0, list);
    assert forall|i: int| 0 <= i < out.now.len() implies #[trigger] out.now[i] is Some by {
        if i != v.0 {
            assert(out.now[i] == uses.now[i]);
        }
    }
    assert forall|w: ValueId| w != v implies #[trigger] use_list(out, w) == use_list(uses, w) by {
        assert(w.0 != v.0);
    }
}

proof fn record_step(
    ops: LayerView<OpView>,
    uses: LayerView<Seq<Use>>,
    op: OpId,
    slots: Seq<ValueId>,
    hi: int,
)
    requires
        uses.wf(),
        uses_agree_but(ops, uses, op, slots, 0, hi),
        0 <= hi < slots.len() <= usize::MAX,
        slots[hi].0 < u32::MAX,
    ensures
        uses_agree_but(
            ops,
            recorded(uses, slots[hi], Use { op, index: hi as usize }),
            op,
            slots,
            0,
            hi + 1,
        ),
{
    let v0 = slots[hi];
    let u0 = Use { op, index: hi as usize };
    let bigger = grown(uses, v0);
    grown_lists(uses, v0);
    let list = use_list(uses, v0);
    put_list(bigger, v0, list.push(u0));
    let out = recorded(uses, v0, u0);
    assert(!list.contains(u0));
    assert forall|v: ValueId, u: Use|
        #![trigger use_list(out, v).contains(u)]
        use_list(out, v).contains(u) <==> if u.op == op {
            0 <= u.index < hi + 1 && slots[u.index as int] == v
        } else {
            slot_holds(ops, u, v)
        } by {
        if v == v0 {
            assert(use_list(out, v) == list.push(u0));
            assert(list.push(u0).contains(u) <==> list.contains(u) || u == u0) by {
                if list.push(u0).contains(u) {
                    let j = choose|j: int| 0 <= j < list.push(u0).len() && list.push(u0)[j] == u;
                    if j < list.len() {
                        assert(list[j] == u);
                    }
                }
                if list.contains(u) {
                    let j = choose|j: int| 0 <= j < list.len() && list[j] == u;
                    assert(list.push(u0)[j] == u);
                }
                if u == u0 {
                    assert(list.push(u0)[list.len() as int] == u);
                }
            }
            assert(use_list(uses, v).contains(u) == list.contains(u));
        } else {
            assert(use_list(out, v) == use_list(uses, v));
            assert(use_list(uses, v).contains(u) == use_list(out, v).contains(u));
        }
    }
    assert forall|v: ValueId| #[trigger] use_list(out, v).no_duplicates() by {
        assert(use_list(uses, v).no_duplicates());
        if v == v0 {
            let pushed = list.push(u0);
            assert forall|i: int, j: int|
                0 <= i < pushed.len() && 0 <= j < pushed.len() && i != j implies pushed[i]
                != pushed[j] by {
                if i == list.len() {
                    assert(list.contains(list[j]));
                } else if j == list.len() {
                    assert(list.contains(list[i]));
                } else {
                    assert(list[i] != list[j]);
                }
            }
        }
    }
}

proof fn forget_step(
    ops: LayerView<OpView>,
    uses: LayerView<Seq<Use>>,
    op: OpId,
    slots: Seq<ValueId>,
    lo: int,
)
    requires
        uses.wf(),
        uses_agree_but(ops, uses, op, slots, lo, slots.len() as int),
        0 <= lo < slots.len() <= usize::MAX,
    ensures
        uses_agree_but(
            ops,
            forgotten(uses, slots[lo], Use { op, index: lo as usize }),
            op,
            slots,
            lo + 1,
            slots.len() as int,
        ),
{
    let v0 = slots[lo];
    let u0 = Use { op, index: lo as usize };
    let list = use_list(uses, v0);
    assert(list.contains(u0));
    assert(uses.at(v0.0) is Some);
    without_members(list, u0);
    put_list(uses, v0, without(list, u0));
    let out = forgotten(uses, v0, u0);
    assert forall|v: ValueId, u: Use|
        #![trigger use_list(out, v).contains(u)]
        use_list(out, v).contains(u) <==> if u.op == op {
            lo + 1 <= u.index < slots.len() && slots[u.index as int] == v
        } else {
            slot_holds(ops, u, v)
        } by {
        if v == v0 {
            assert(use_list(out, v) == without(list, u0));
            assert(use_list(uses, v).contains(u) == list.contains(u));
        } else {
            assert(use_list(out, v) == use_list(uses, v));
            assert(use_list(uses, v).contains(u) == use_list(out, v).contains(u));
        }
    }
    assert forall|v: ValueId| #[trigger] use_list(out, v).no_duplicates() by {
        assert(use_list(uses, v).no_duplicates());
    }
}

/// The records of a context.
pub struct Ir {
    ops: Layered<OpInstance>,
    values: Layered<ValueEntry>,
    blocks: Layered<Block>,
    regions: Layered<Region>,
    uses: Layered<UseList>,
}

impl View for Ir {
    type V = IrView;

    closed spec fn view(&self) -> IrView {
        IrView {
            ops: self.ops@,
            values: self.values@,
            blocks: self.blocks@,
            regions: self.regions@,
            uses: self.uses@,
        }
    }
}

impl IrView {
    pub open spec fn layers_wf(self) -> bool {
        &&& self.ops.wf()
        &&& self.values.wf()
        &&& self.blocks.wf()
        &&& self.regions.wf()
        &&& self.uses.wf()
    }

    /// The committed records agree with the committed use lists.
    pub open spec fn base_agrees(self) -> bool {
        uses_agree(self.ops.discarded(), self.uses.discarded())
    }

    pub open spec fn wf(self) -> bool {
        self.layers_wf() && uses_agree(self.ops, self.uses) && self.base_agrees()
    }

    pub open spec fn op(self, id: OpId) -> Option<OpView> {
        self.ops.at(id.0)
    }

    pub open spec fn value(self, id: ValueId) -> Option<ValueEntry> {
        self.values.at(id.0)
    }

    pub open spec fn block(self, id: BlockId) -> Option<BlockView> {
        self.blocks.at(id.0)
    }

    pub open spec fn region(self, id: RegionId) -> Option<RegionView> {
        self.regions.at(id.0)
    }

    /// How many operations, values, blocks and regions the overlay created and
    /// still holds.
    pub open spec fn local_total(self) -> nat {
        self.ops.local_records() + self.values.local_records() + self.blocks.local_records()
            + self.regions.local_records()
    }

    /// How many committed operations, values, blocks and regions the overlay
    /// holds its own copy of.
    pub open spec fn shadow_total(self) -> nat {
        self.ops.shadow_records() + self.values.shadow_records() + self.blocks.shadow_records()
            + self.regions.shadow_records()
    }

    /// With the operation `id` reading `op`, which has the operands it had.
    pub open spec fn put_op(self, id: OpId, op: OpView) -> Self {
        IrView { ops: self.ops.put(id.0, op), ..self }
    }

    /// With the operands of `id` replaced.
    pub open spec fn put_operands(self, id: OpId, operands: Seq<ValueId>) -> Self {
        let held = self.ops.at(id.0)->0;
        let cleared = slots_forgotten(self.uses, id, held.operands, held.operands.len());
        IrView {
            ops: self.ops.put(id.0, OpView { operands, ..held }),
            uses: slots_recorded(cleared, id, operands, operands.len()),
            ..self
        }
    }

    /// With one more operation.
    pub open spec fn add_op(self, op: OpView) -> Self {
        let id = OpId(self.ops.now.len() as u32);
        IrView {
            ops: self.ops.added(op),
            uses: slots_recorded(self.uses, id, op.operands, op.operands.len()),
            ..self
        }
    }

    /// With the operation `id` gone, and the uses it made.
    pub open spec fn erase_op(self, id: OpId) -> Self {
        IrView {
            ops: self.ops.erased(id.0),
            uses: match self.ops.at(id.0) {
                Some(op) => slots_forgotten(self.uses, id, op.operands, op.operands.len()),
                None => self.uses,
            },
            ..self
        }
    }

    pub open spec fn put_value(self, id: ValueId, v: ValueEntry) -> Self {
        IrView { values: self.values.put(id.0, v), ..self }
    }

    pub open spec fn add_value(self, ty: TypeId, defining_op: Option<OpId>) -> Self {
        let id = ValueId(self.values.now.len() as u32);
        IrView {
            values: self.values.added(
                ValueEntry { value: Value { id, ty, defining_op }, block: None, region: None },
            ),
            ..self
        }
    }

    pub open spec fn erase_value(self, id: ValueId) -> Self {
        IrView { values: self.values.erased(id.0), ..self }
    }

    pub open spec fn put_block(self, id: BlockId, b: BlockView) -> Self {
        IrView { blocks: self.blocks.put(id.0, b), ..self }
    }

    pub open spec fn add_block(self, b: BlockView) -> Self {
        IrView { blocks: self.blocks.added(b), ..self }
    }

    pub open spec fn erase_block(self, id: BlockId) -> Self {
        IrView { blocks: self.blocks.erased(id.0), ..self }
    }

    pub open spec fn put_region(self, id: RegionId, r: RegionView) -> Self {
        IrView { regions: self.regions.put(id.0, r), ..self }
    }

    pub open spec fn add_region(self, r: RegionView) -> Self {
        IrView { regions: self.regions.added(r), ..self }
    }

    pub open spec fn erase_region(self, id: RegionId) -> Self {
        IrView { regions: self.regions.erased(id.0), ..self }
    }

    pub open spec fn commit(self, epoch: u32) -> Self {
        IrView {
            ops: self.ops.committed_at(epoch),
            values: self.values.committed_at(epoch),
            blocks: self.blocks.committed_at(epoch),
            regions: self.regions.committed_at(epoch),
            uses: self.uses.committed_at(epoch),
        }
    }

    pub open spec fn discard(self) -> Self {
        IrView {
            ops: self.ops.discarded(),
            values: self.values.discarded(),
            blocks: self.blocks.discarded(),
            regions: self.regions.discarded(),
            uses: self.uses.discarded(),
        }
    }
}

/// Committing changes nothing a read of the IR can see.
pub proof fn commit_keeps_the_ir(ir: IrView, epoch: u32)
    requires
        ir.wf(),
    ensures
        ir.commit(epoch).ops.now == ir.ops.now,
        ir.commit(epoch).values.now == ir.values.now,
        ir.commit(epoch).blocks.now == ir.blocks.now,
        ir.commit(epoch).regions.now == ir.regions.now,
        ir.commit(epoch).uses.now == ir.uses.now,
        ir.commit(epoch).discard() == ir.commit(epoch),
{
}

/// Dropping the edits answers every read as after the last commit.
pub proof fn discard_undoes_every_edit(ir: IrView)
    requires
        ir.wf(),
    ensures
        ir.discard().ops.now == ir.ops.committed,
        ir.discard().values.now == ir.values.committed,
        ir.discard().blocks.now == ir.blocks.committed,
        ir.discard().regions.now == ir.regions.committed,
        ir.discard().uses.now == ir.uses.committed,
        ir.discard().discard() == ir.discard(),
{
}

/// Every use of a value is a live operand slot that holds it, and every such
/// slot is listed once.
pub proof fn use_lists_are_exact(ir: IrView, v: ValueId, u: Use)
    requires
        ir.wf(),
    ensures
        use_list(ir.uses, v).contains(u) <==> slot_holds(ir.ops, u, v),
        use_list(ir.uses, v).no_duplicates(),
{
}

/// An operand has an id some value was or could be given.
pub proof fn operands_are_minted(ir: IrView, op: OpId, i: int)
    requires
        ir.wf(),
        ir.op(op) is Some,
        0 <= i < ir.op(op)->0.operands.len() <= usize::MAX,
    ensures
        ir.op(op)->0.operands[i].0 < u32::MAX,
{
    let v = ir.op(op)->0.operands[i];
    let u = Use { op, index: i as usize };
    assert(slot_holds(ir.ops, u, v));
    assert(use_list(ir.uses, v).contains(u));
}

impl Ir {
    pub closed spec fn inv(&self) -> bool {
        &&& self.ops.inv()
        &&& self.values.inv()
        &&& self.blocks.inv()
        &&& self.regions.inv()
        &&& self.uses.inv()
        &&& self@.wf()
    }

    /// An IR that holds nothing.
    pub fn new() -> (r: Self)
        ensures
            r.inv(),
            r@.wf(),
            r@.ops.now.len() == 0,
            r@.values.now.len() == 0,
            r@.blocks.now.len() == 0,
            r@.regions.now.len() == 0,
            r@.uses.now.len() == 0,
            r@.discard() == r@,
    {
        let r = Ir {
            ops: Layered::new(),
            values: Layered::new(),
            blocks: Layered::new(),
            regions: Layered::new(),
            uses: Layered::new(),
        };
        assert(forall|v: ValueId| #[trigger] use_list(r.uses@, v) == Seq::<Use>::empty());
        r
    }

    pub proof fn inv_wf(&self)
        requires
            self.inv(),
        ensures
            self@.wf(),
    {
    }

    /// The operand list of an operation is no longer than memory.
    pub proof fn operand_lists_fit(&self, id: OpId)
        requires
            self.inv(),
        ensures
            self@.op(id) is Some ==> self@.op(id)->0.operands.len() <= usize::MAX,
    {
        if self@.op(id) is Some {
            self.ops.holds_views(id.0);
            let t = choose|t: OpInstance| self.ops@.at(id.0) == Some(#[trigger] t@);
            assert(t.operands.len() == t.operands@.len());
        }
    }

    pub fn get_op(&self, id: OpId) -> (r: Option<&OpInstance>)
        requires
            self.inv(),
        ensures
            r is Some <==> self@.op(id) is Some,
            r is Some ==> Some(r->0@) == self@.op(id),
    {
        self.ops.get(id.0)
    }

    pub fn get_value(&self, id: ValueId) -> (r: Option<ValueEntry>)
        requires
            self.inv(),
        ensures
            r == self@.value(id),
    {
        match self.values.get(id.0) {
            Some(v) => Some(*v),
            None => None,
        }
    }

    pub fn get_block(&self, id: BlockId) -> (r: Option<&Block>)
        requires
            self.inv(),
        ensures
            r is Some <==> self@.block(id) is Some,
            r is Some ==> Some(r->0@) == self@.block(id),
    {
        self.blocks.get(id.0)
    }

    pub fn get_region(&self, id: RegionId) -> (r: Option<&Region>)
        requires
            self.inv(),
        ensures
            r is Some <==> self@.region(id) is Some,
            r is Some ==> Some(r->0@) == self@.region(id),
    {
        self.regions.get(id.0)
    }

    pub fn op_generation(&self, id: OpId, epoch: u32) -> (r: u32)
        requires
            self.inv(),
        ensures
            r == self@.ops.generation(id.0, epoch),
    {
        self.ops.generation(id.0, epoch)
    }

    pub fn block_generation(&self, id: BlockId, epoch: u32) -> (r: u32)
        requires
            self.inv(),
        ensures
            r == self@.blocks.generation(id.0, epoch),
    {
        self.blocks.generation(id.0, epoch)
    }

    pub fn region_generation(&self, id: RegionId, epoch: u32) -> (r: u32)
        requires
            self.inv(),
        ensures
            r == self@.regions.generation(id.0, epoch),
    {
        self.regions.generation(id.0, epoch)
    }

    pub fn is_pending_op(&self, id: OpId) -> (r: bool)
        requires
            self.inv(),
        ensures
            r == self@.ops.pending(id.0),
    {
        self.ops.is_pending(id.0)
    }

    pub fn is_pending_value(&self, id: ValueId) -> (r: bool)
        requires
            self.inv(),
        ensures
            r == self@.values.pending(id.0),
    {
        self.values.is_pending(id.0)
    }

    pub fn is_committed_value(&self, id: ValueId) -> (r: bool)
        requires
            self.inv(),
        ensures
            r == (id.0 < self@.values.committed.len()),
    {
        self.values.is_committed(id.0)
    }

    /// How many operations were ever minted.
    pub fn op_count(&self) -> (n: usize)
        requires
            self.inv(),
        ensures
            n == self@.ops.now.len(),
    {
        self.ops.len()
    }

    /// How many values were ever minted.
    pub fn value_count(&self) -> (n: usize)
        requires
            self.inv(),
        ensures
            n == self@.values.now.len(),
    {
        self.values.len()
    }

    /// How many blocks were ever minted.
    pub fn block_count(&self) -> (n: usize)
        requires
            self.inv(),
        ensures
            n == self@.blocks.now.len(),
    {
        self.blocks.len()
    }

    /// How many regions were ever minted.
    pub fn region_count(&self) -> (n: usize)
        requires
            self.inv(),
        ensures
            n == self@.regions.now.len(),
    {
        self.regions.len()
    }

    /// Whether the overlay holds no edit of an operation, value, block or region.
    pub fn is_untouched(&self) -> (r: bool)
        requires
            self.inv(),
        ensures
            r == (self@.ops.touched == Set::<int>::empty() && self@.values.touched == Set::<
                int,
            >::empty() && self@.blocks.touched == Set::<int>::empty() && self@.regions.touched
                == Set::<int>::empty()),
    {
        self.ops.is_untouched() && self.values.is_untouched() && self.blocks.is_untouched()
            && self.regions.is_untouched()
    }

    /// Records created in the overlay, records copied into it, and use lists it
    /// changed.
    pub fn census(&self) -> (r: OverlayCensus)
        requires
            self.inv(),
        ensures
            r.local == capped(self@.local_total()),
            r.shadows == capped(self@.shadow_total()),
            r.use_deltas == capped(self@.uses.local_records() + self@.uses.shadow_records()),
    {
        let local: usize = self.ops.local_count().saturating_add(
            self.values.local_count(),
        ).saturating_add(self.blocks.local_count()).saturating_add(self.regions.local_count());
        let shadows: usize = self.ops.shadow_count().saturating_add(
            self.values.shadow_count(),
        ).saturating_add(self.blocks.shadow_count()).saturating_add(self.regions.shadow_count());
        let use_deltas: usize = self.uses.local_count().saturating_add(self.uses.shadow_count());
        OverlayCensus { local, shadows, use_deltas }
    }

    /// The slots that hold `v`, in the order they were recorded.
    pub fn uses_of(&self, v: ValueId) -> (r: Vec<Use>)
        requires
            self.inv(),
        ensures
            r@ == use_list(self@.uses, v),
    {
        match self.uses.get(v.0) {
            Some(list) => copy_list(&list.uses),
            None => Vec::new(),
        }
    }

    /// Whether any live slot holds `v`.
    pub fn is_used(&self, v: ValueId) -> (r: bool)
        requires
            self.inv(),
        ensures
            r == (use_list(self@.uses, v).len() > 0),
    {
        match self.uses.get(v.0) {
            Some(list) => list.uses.len() > 0,
            None => false,
        }
    }

    fn record(&mut self, v: ValueId, u: Use)
        requires
            old(self).uses.inv(),
            old(self).uses@.wf(),
            v.0 < u32::MAX,
            forall|i: int|
                0 <= i < old(self).uses@.now.len() ==> #[trigger] old(self).uses@.now[i] is Some,
        ensures
            final(self).uses.inv(),
            final(self).uses@.wf(),
            final(self).uses@ == recorded(old(self).uses@, v, u),
            final(self).ops == old(self).ops,
            final(self).values == old(self).values,
            final(self).blocks == old(self).blocks,
            final(self).regions == old(self).regions,
    {
        let ghost before = self.uses@;
        proof {
            grown_lists(before, v);
        }
        while self.uses.len() <= v.0 as usize
            invariant
                self.uses.inv(),
                self.uses@.wf(),
                v.0 < u32::MAX,
                grown(self.uses@, v) == grown(before, v),
                self.ops == old(self).ops,
                self.values == old(self).values,
                self.blocks == old(self).blocks,
                self.regions == old(self).regions,
            decreases v.0 + 1 - self.uses@.now.len(),
        {
            let ghost here = self.uses@;
            let list = UseList { uses: Vec::new() };
            assert(list@ =~= Seq::<Use>::empty());
            let _ = self.uses.add(list);
            assert(self.uses@ == here.added(Seq::empty()));
        }
        assert(self.uses@ == grown(before, v));
        assert(use_list(self.uses@, v) == use_list(before, v));
        let mut list: Vec<Use> = match self.uses.get(v.0) {
            Some(held) => copy_list(&held.uses),
            None => Vec::new(),
        };
        list.push(u);
        self.uses.put(v.0, UseList { uses: list });
    }

    fn forget(&mut self, v: ValueId, u: Use)
        requires
            old(self).uses.inv(),
            old(self).uses@.wf(),
        ensures
            final(self).uses.inv(),
            final(self).uses@.wf(),
            final(self).uses@ == forgotten(old(self).uses@, v, u),
            final(self).ops == old(self).ops,
            final(self).values == old(self).values,
            final(self).blocks == old(self).blocks,
            final(self).regions == old(self).regions,
    {
        let ghost before = self.uses@;
        let mut list: Vec<Use> = match self.uses.get(v.0) {
            Some(held) => copy_list(&held.uses),
            None => {
                return;
            },
        };
        let ghost held = list@;
        let mut i: usize = 0;
        while i < list.len() && list[i] != u
            invariant
                i <= list.len(),
                list@ == held,
                forall|j: int| 0 <= j < i ==> held[j] != u,
            decreases list.len() - i,
        {
            i += 1;
        }
        if i < list.len() {
            proof {
                without_at(held, u, i as int);
            }
            let _ = list.remove(i);
        } else {
            proof {
                without_none(held, u);
            }
        }
        assert(list@ == without(held, u));
        self.uses.put(v.0, UseList { uses: list });
    }

    /// Mints a value.
    pub fn add_value(&mut self, ty: TypeId, defining_op: Option<OpId>) -> (id: ValueId)
        requires
            old(self).inv(),
            old(self)@.values.now.len() < u32::MAX,
        ensures
            final(self).inv(),
            id.0 == old(self)@.values.now.len(),
            final(self)@ == old(self)@.add_value(ty, defining_op),
    {
        let id = ValueId(self.values.len() as u32);
        let _ = self.values.add(
            ValueEntry { value: Value { id, ty, defining_op }, block: None, region: None },
        );
        id
    }

    /// Mints a block.
    pub fn add_block(&mut self, block: Block) -> (id: BlockId)
        requires
            old(self).inv(),
            old(self)@.blocks.now.len() < u32::MAX,
        ensures
            final(self).inv(),
            id.0 == old(self)@.blocks.now.len(),
            final(self)@ == old(self)@.add_block(block@),
    {
        BlockId(self.blocks.add(block))
    }

    /// Mints a region.
    pub fn add_region(&mut self, region: Region) -> (id: RegionId)
        requires
            old(self).inv(),
            old(self)@.regions.now.len() < u32::MAX,
        ensures
            final(self).inv(),
            id.0 == old(self)@.regions.now.len(),
            final(self)@ == old(self)@.add_region(region@),
    {
        RegionId(self.regions.add(region))
    }

    /// Mints an operation, and records the uses its operands make.
    pub fn add_op(&mut self, op: OpInstance) -> (id: OpId)
        requires
            old(self).inv(),
            old(self)@.ops.now.len() < u32::MAX,
            forall|i: int| 0 <= i < op.operands@.len() ==> (#[trigger] op.operands@[i]).0 < u32::MAX,
        ensures
            final(self).inv(),
            id.0 == old(self)@.ops.now.len(),
            final(self)@ == old(self)@.add_op(op@),
    {
        let ghost before = self@;
        let ghost added = op@;
        let operands = copy_list(&op.operands);
        let id = OpId(self.ops.add(op));
        assert(uses_agree_but(self.ops@, self.uses@, id, operands@, 0, 0)) by {
            assert forall|v: ValueId, u: Use|
                #![trigger use_list(self.uses@, v).contains(u)]
                use_list(self.uses@, v).contains(u) <==> if u.op == id {
                    0 <= u.index < 0 && operands@[u.index as int] == v
                } else {
                    slot_holds(self.ops@, u, v)
                } by {
                assert(use_list(before.uses, v).contains(u) <==> slot_holds(before.ops, u, v));
                if u.op != id {
                    assert(u.op.0 != id.0);
                }
            }
            assert forall|v: ValueId| #[trigger] use_list(self.uses@, v).no_duplicates() by {
                assert(use_list(before.uses, v).no_duplicates());
            }
        }
        self.record_all(id, &operands, Ghost(before.uses));
        proof {
            self.finish_agreement(id, operands@);
            assert(self@.ops.discarded() == before.ops.discarded());
        }
        id
    }

    fn record_all(&mut self, id: OpId, operands: &Vec<ValueId>, Ghost(start): Ghost<LayerView<Seq<Use>>>)
        requires
            old(self).ops.inv(),
            old(self).uses.inv(),
            old(self).uses@.wf(),
            old(self).uses@ == start,
            uses_agree_but(old(self).ops@, old(self).uses@, id, operands@, 0, 0),
            forall|i: int| 0 <= i < operands@.len() ==> (#[trigger] operands@[i]).0 < u32::MAX,
        ensures
            final(self).ops == old(self).ops,
            final(self).values == old(self).values,
            final(self).blocks == old(self).blocks,
            final(self).regions == old(self).regions,
            final(self).uses.inv(),
            final(self).uses@.wf(),
            final(self).uses@ == slots_recorded(start, id, operands@, operands@.len()),
            final(self).uses@.committed == start.committed,
            final(self).uses@.stamps == start.stamps,
            uses_agree_but(
                final(self).ops@,
                final(self).uses@,
                id,
                operands@,
                0,
                operands@.len() as int,
            ),
    {
        let mut i: usize = 0;
        while i < operands.len()
            invariant
                i <= operands.len(),
                self.ops == old(self).ops,
                self.values == old(self).values,
                self.blocks == old(self).blocks,
                self.regions == old(self).regions,
                self.uses.inv(),
                self.uses@.wf(),
                self.uses@ == slots_recorded(start, id, operands@, i as nat),
                self.uses@.committed == start.committed,
                self.uses@.stamps == start.stamps,
                uses_agree_but(self.ops@, self.uses@, id, operands@, 0, i as int),
                forall|i: int| 0 <= i < operands@.len() ==> (#[trigger] operands@[i]).0 < u32::MAX,
            decreases operands.len() - i,
        {
            let ghost here = self.uses@;
            proof {
                assert(operands@[i as int].0 < u32::MAX);
                record_step(self.ops@, here, id, operands@, i as int);
                grown_lists(here, operands@[i as int]);
            }
            self.record(operands[i], Use { op: id, index: i });
            i += 1;
        }
    }

    fn forget_all(&mut self, id: OpId, operands: &Vec<ValueId>)
        requires
            old(self).ops.inv(),
            old(self).uses.inv(),
            old(self).uses@.wf(),
            uses_agree_but(
                old(self).ops@,
                old(self).uses@,
                id,
                operands@,
                0,
                operands@.len() as int,
            ),
        ensures
            final(self).ops == old(self).ops,
            final(self).values == old(self).values,
            final(self).blocks == old(self).blocks,
            final(self).regions == old(self).regions,
            final(self).uses.inv(),
            final(self).uses@.wf(),
            final(self).uses@ == slots_forgotten(old(self).uses@, id, operands@, operands@.len()),
            final(self).uses@.committed == old(self).uses@.committed,
            final(self).uses@.stamps == old(self).uses@.stamps,
            uses_agree_but(
                final(self).ops@,
                final(self).uses@,
                id,
                operands@,
                operands@.len() as int,
                operands@.len() as int,
            ),
    {
        let mut i: usize = 0;
        while i < operands.len()
            invariant
                i <= operands.len(),
                self.ops == old(self).ops,
                self.values == old(self).values,
                self.blocks == old(self).blocks,
                self.regions == old(self).regions,
                self.uses.inv(),
                self.uses@.wf(),
                self.uses@ == slots_forgotten(old(self).uses@, id, operands@, i as nat),
                self.uses@.committed == old(self).uses@.committed,
                self.uses@.stamps == old(self).uses@.stamps,
                uses_agree_but(
                    self.ops@,
                    self.uses@,
                    id,
                    operands@,
                    i as int,
                    operands@.len() as int,
                ),
            decreases operands.len() - i,
        {
            proof {
                forget_step(self.ops@, self.uses@, id, operands@, i as int);
            }
            self.forget(operands[i], Use { op: id, index: i });
            i += 1;
        }
    }

    /// Once every slot of `id` is recorded, the use lists agree as a whole.
    proof fn finish_agreement(&self, id: OpId, operands: Seq<ValueId>)
        requires
            uses_agree_but(self.ops@, self.uses@, id, operands, 0, operands.len() as int),
            self.ops@.at(id.0) is Some,
            self.ops@.at(id.0)->0.operands == operands,
        ensures
            uses_agree(self.ops@, self.uses@),
    {
        assert forall|v: ValueId, u: Use|
            #![trigger use_list(self.uses@, v).contains(u)]
            use_list(self.uses@, v).contains(u) <==> slot_holds(self.ops@, u, v) by {}
    }

    /// Replaces the operands of a live operation, and the uses they make.
    pub fn set_operands(&mut self, id: OpId, operands: Vec<ValueId>)
        requires
            old(self).inv(),
            old(self)@.op(id) is Some,
            forall|i: int| 0 <= i < operands@.len() ==> (#[trigger] operands@[i]).0 < u32::MAX,
        ensures
            final(self).inv(),
            final(self)@ == old(self)@.put_operands(id, operands@),
    {
        let ghost before = self@;
        let ghost held = before.ops.at(id.0)->0;
        let mut op: OpInstance = match self.ops.get(id.0) {
            Some(op) => op.copy(),
            None => {
                return;
            },
        };
        assert(uses_agree_but(
            self.ops@,
            self.uses@,
            id,
            op.operands@,
            0,
            op.operands@.len() as int,
        )) by {
            assert forall|v: ValueId, u: Use|
                #![trigger use_list(self.uses@, v).contains(u)]
                use_list(self.uses@, v).contains(u) <==> if u.op == id {
                    0 <= u.index < op.operands@.len() && op.operands@[u.index as int] == v
                } else {
                    slot_holds(self.ops@, u, v)
                } by {}
        }
        self.forget_all(id, &op.operands);
        let ghost cleared = self.uses@;
        let again = copy_list(&operands);
        let ghost old_ops = self.ops@;
        let ghost gone = op.operands@;
        op.operands = operands;
        self.ops.put(id.0, op);
        assert(uses_agree_but(self.ops@, self.uses@, id, again@, 0, 0)) by {
            assert forall|v: ValueId, u: Use|
                #![trigger use_list(self.uses@, v).contains(u)]
                use_list(self.uses@, v).contains(u) <==> if u.op == id {
                    0 <= u.index < 0 && again@[u.index as int] == v
                } else {
                    slot_holds(self.ops@, u, v)
                } by {
                assert(use_list(cleared, v).contains(u) <==> if u.op == id {
                    gone.len() <= u.index < gone.len() && gone[u.index as int] == v
                } else {
                    slot_holds(old_ops, u, v)
                });
                if u.op != id {
                    assert(u.op.0 != id.0);
                }
            }
            assert forall|v: ValueId| #[trigger] use_list(self.uses@, v).no_duplicates() by {
                assert(use_list(cleared, v).no_duplicates());
            }
        }
        self.record_all(id, &again, Ghost(cleared));
        proof {
            self.finish_agreement(id, again@);
            assert(self@.ops.discarded() == before.ops.discarded());
            assert(self@.uses.discarded() == before.uses.discarded());
        }
    }

    /// Rewrites a live operation, keeping its operands.
    pub fn put_op(&mut self, id: OpId, op: OpInstance)
        requires
            old(self).inv(),
            old(self)@.op(id) is Some,
            op.operands@ == old(self)@.op(id)->0.operands,
        ensures
            final(self).inv(),
            final(self)@ == old(self)@.put_op(id, op@),
    {
        let ghost before = self@;
        self.ops.put(id.0, op);
        proof {
            assert forall|v: ValueId, u: Use|
                #![trigger use_list(self.uses@, v).contains(u)]
                use_list(self.uses@, v).contains(u) <==> slot_holds(self.ops@, u, v) by {
                assert(use_list(before.uses, v).contains(u) <==> slot_holds(before.ops, u, v));
                assert(u.op.0 == id.0 ==> u.op == id);
            }
            assert(self@.ops.discarded() == before.ops.discarded());
        }
    }

    /// Takes an operation out of the IR, and the uses it made.
    pub fn erase_op(&mut self, id: OpId)
        requires
            old(self).inv(),
        ensures
            final(self).inv(),
            final(self)@ == old(self)@.erase_op(id),
    {
        let ghost before = self@;
        let operands: Vec<ValueId> = match self.ops.get(id.0) {
            Some(op) => copy_list(&op.operands),
            None => {
                self.ops.erase(id.0);
                proof {
                    assert(self@.ops.discarded() == before.ops.discarded());
                    assert forall|v: ValueId, u: Use|
                        #![trigger use_list(self.uses@, v).contains(u)]
                        use_list(self.uses@, v).contains(u) <==> slot_holds(self.ops@, u, v) by {
                        assert(use_list(before.uses, v).contains(u) <==> slot_holds(
                            before.ops,
                            u,
                            v,
                        ));
                        assert(self.ops@.at(u.op.0) == before.ops.at(u.op.0));
                    }
                }
                return;
            },
        };
        assert(uses_agree_but(self.ops@, self.uses@, id, operands@, 0, operands@.len() as int)) by {
            assert forall|v: ValueId, u: Use|
                #![trigger use_list(self.uses@, v).contains(u)]
                use_list(self.uses@, v).contains(u) <==> if u.op == id {
                    0 <= u.index < operands@.len() && operands@[u.index as int] == v
                } else {
                    slot_holds(self.ops@, u, v)
                } by {}
        }
        self.forget_all(id, &operands);
        let ghost cleared = self.uses@;
        let ghost old_ops = self.ops@;
        self.ops.erase(id.0);
        proof {
            assert forall|v: ValueId, u: Use|
                #![trigger use_list(self.uses@, v).contains(u)]
                use_list(self.uses@, v).contains(u) <==> slot_holds(self.ops@, u, v) by {
                assert(use_list(cleared, v).contains(u) <==> if u.op == id {
                    operands@.len() <= u.index < operands@.len() && operands@[u.index as int] == v
                } else {
                    slot_holds(old_ops, u, v)
                });
                if u.op != id {
                    assert(u.op.0 != id.0);
                }
            }
            assert forall|v: ValueId| #[trigger] use_list(self.uses@, v).no_duplicates() by {
                assert(use_list(cleared, v).no_duplicates());
            }
            assert(self@.ops.discarded() == before.ops.discarded());
            assert(self@.uses.discarded() == before.uses.discarded());
        }
    }

    pub fn put_value(&mut self, id: ValueId, v: ValueEntry)
        requires
            old(self).inv(),
            old(self)@.value(id) is Some,
        ensures
            final(self).inv(),
            final(self)@ == old(self)@.put_value(id, v),
    {
        self.values.put(id.0, v);
    }

    pub fn erase_value(&mut self, id: ValueId)
        requires
            old(self).inv(),
        ensures
            final(self).inv(),
            final(self)@ == old(self)@.erase_value(id),
    {
        self.values.erase(id.0);
    }

    pub fn put_block(&mut self, id: BlockId, b: Block)
        requires
            old(self).inv(),
            old(self)@.block(id) is Some,
        ensures
            final(self).inv(),
            final(self)@ == old(self)@.put_block(id, b@),
    {
        self.blocks.put(id.0, b);
    }

    pub fn erase_block(&mut self, id: BlockId)
        requires
            old(self).inv(),
        ensures
            final(self).inv(),
            final(self)@ == old(self)@.erase_block(id),
    {
        self.blocks.erase(id.0);
    }

    pub fn put_region(&mut self, id: RegionId, r: Region)
        requires
            old(self).inv(),
            old(self)@.region(id) is Some,
        ensures
            final(self).inv(),
            final(self)@ == old(self)@.put_region(id, r@),
    {
        self.regions.put(id.0, r);
    }

    pub fn erase_region(&mut self, id: RegionId)
        requires
            old(self).inv(),
        ensures
            final(self).inv(),
            final(self)@ == old(self)@.erase_region(id),
    {
        self.regions.erase(id.0);
    }

    /// Takes every edit over.
    pub fn commit(&mut self, epoch: u32)
        requires
            old(self).inv(),
        ensures
            final(self).inv(),
            final(self)@ == old(self)@.commit(epoch),
    {
        let ghost before = self@;
        self.ops.commit(epoch);
        self.values.commit(epoch);
        self.blocks.commit(epoch);
        self.regions.commit(epoch);
        self.uses.commit(epoch);
        proof {
            same_reads(before.ops, before.uses, self@.ops, self@.uses);
            same_reads(before.ops, before.uses, self@.ops.discarded(), self@.uses.discarded());
        }
    }

    /// Drops every edit.
    pub fn discard(&mut self)
        requires
            old(self).inv(),
        ensures
            final(self).inv(),
            final(self)@ == old(self)@.discard(),
    {
        let ghost before = self@;
        self.ops.discard();
        self.values.discard();
        self.blocks.discard();
        self.regions.discard();
        self.uses.discard();
        proof {
            assert(self@.ops.discarded() == before.ops.discarded());
            assert(self@.uses.discarded() == before.uses.discarded());
        }
    }
}

/// Agreement rests on what reads answer alone.
proof fn same_reads(
    ops: LayerView<OpView>,
    uses: LayerView<Seq<Use>>,
    ops2: LayerView<OpView>,
    uses2: LayerView<Seq<Use>>,
)
    requires
        uses_agree(ops, uses),
        ops2.now == ops.now,
        uses2.now == uses.now,
    ensures
        uses_agree(ops2, uses2),
{
    assert forall|v: ValueId, u: Use|
        #![trigger use_list(uses2, v).contains(u)]
        use_list(uses2, v).contains(u) <==> slot_holds(ops2, u, v) by {
        assert(use_list(uses, v).contains(u) <==> slot_holds(ops, u, v));
    }
    assert forall|v: ValueId| #[trigger] use_list(uses2, v).no_duplicates() by {
        assert(use_list(uses, v).no_duplicates());
    }
}

} // verus!

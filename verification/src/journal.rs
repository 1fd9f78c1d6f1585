//! What an overlay reports of its edits: which subtrees changed, and how often.
use vstd::prelude::*;
use crate::ids::BlockId;
use crate::ids::OpId;
use crate::ids::RegionId;
use crate::ids::NO_OP;
use crate::ir::Ir;
use crate::ir::IrView;
use crate::ir::Parent;

verus! {

/// The operation that owns `region`.
pub open spec fn region_owner(ir: IrView, region: RegionId) -> Option<OpId> {
    match ir.region(region) {
        Some(r) => r.parent_op,
        None => None,
    }
}

/// The operation that owns the region `block` sits in.
pub open spec fn block_owner(ir: IrView, block: BlockId) -> Option<OpId> {
    match ir.block(block) {
        Some(b) => match b.parent {
            Some(region) => region_owner(ir, region),
            None => None,
        },
        None => None,
    }
}

/// The operation enclosing `op`.
pub open spec fn enclosing(ir: IrView, op: OpId) -> Option<OpId> {
    match ir.op(op) {
        Some(o) => match o.parent {
            Some(Parent::Block(block)) => block_owner(ir, block),
            Some(Parent::Region(region)) => region_owner(ir, region),
            None => None,
        },
        None => None,
    }
}

/// `op` and the operations enclosing it, innermost first, at most `limit` of
/// them.
pub open spec fn spine(ir: IrView, op: OpId, limit: nat) -> Seq<OpId>
    decreases limit,
{
    if limit == 0 {
        Seq::empty()
    } else {
        seq![op] + match enclosing(ir, op) {
            Some(outer) => spine(ir, outer, (limit - 1) as nat),
            None => Seq::empty(),
        }
    }
}

/// The longest spine there can be: every operation once.
pub open spec fn spine_limit(ir: IrView) -> nat {
    ir.ops.now.len() + 1
}

/// What was reported of the edits of an overlay.
pub ghost struct JournalView {
    /// How often each operation's subtree was edited.
    pub revision: Seq<u32>,
    /// Operations whose subtree an edit touched, innermost per edit.
    pub dirty: Seq<OpId>,
}

pub open spec fn revision_of(journal: JournalView, op: OpId) -> u32 {
    if op.0 < journal.revision.len() {
        journal.revision[op.0 as int]
    } else {
        0
    }
}

/// One more, or as many as the counter can hold.
pub open spec fn counted(n: u32) -> u32 {
    if n == u32::MAX {
        n
    } else {
        (n + 1) as u32
    }
}

impl JournalView {
    pub open spec fn empty() -> Self {
        JournalView { revision: Seq::empty(), dirty: Seq::empty() }
    }

    /// With the revision of `op` one further. Nothing has the number of an
    /// absent operation.
    pub open spec fn bump(self, op: OpId) -> Self {
        if op.0 == NO_OP {
            self
        } else {
            let wide = if op.0 < self.revision.len() {
                self.revision
            } else {
                self.revision + Seq::new((op.0 + 1 - self.revision.len()) as nat, |i: int| 0u32)
            };
            JournalView { revision: wide.update(op.0 as int, counted(wide[op.0 as int])), ..self }
        }
    }

    /// With every operation of `ops` bumped, in order.
    pub open spec fn bump_all(self, ops: Seq<OpId>) -> Self
        decreases ops.len(),
    {
        if ops.len() == 0 {
            self
        } else {
            self.bump(ops[0]).bump_all(ops.skip(1))
        }
    }

    /// With `op` noted as dirtied, once for edits in a row.
    pub open spec fn mark(self, op: OpId) -> Self {
        if self.dirty.len() > 0 && self.dirty.last() == op {
            self
        } else {
            JournalView { dirty: self.dirty.push(op), ..self }
        }
    }

    /// `op`'s subtree changed: it and every enclosing operation are bumped.
    pub open spec fn edit_subtree(self, ir: IrView, op: OpId) -> Self {
        self.mark(op).bump_all(spine(ir, op, spine_limit(ir)))
    }

    /// `op` itself changed. The dirtied subtree is its owner's, so verification
    /// also sees the siblings the edit may have broken.
    pub open spec fn edit_op(self, ir: IrView, op: OpId) -> Self {
        match enclosing(ir, op) {
            Some(outer) => self.bump(op).edit_subtree(ir, outer),
            None => self.bump(op).mark(op),
        }
    }

    pub open spec fn edit_block(self, ir: IrView, block: BlockId) -> Self {
        match block_owner(ir, block) {
            Some(op) => self.edit_subtree(ir, op),
            None => self,
        }
    }

    pub open spec fn edit_region(self, ir: IrView, region: RegionId) -> Self {
        match region_owner(ir, region) {
            Some(op) => self.edit_subtree(ir, op),
            None => self,
        }
    }
}

/// The revisions and the dirtied subtrees of an overlay.
pub struct Journal {
    revision: Vec<u32>,
    dirty: Vec<OpId>,
}

impl View for Journal {
    type V = JournalView;

    closed spec fn view(&self) -> JournalView {
        JournalView { revision: self.revision@, dirty: self.dirty@ }
    }
}

/// The operation that owns `region`.
pub fn owner_of_region(ir: &Ir, region: RegionId) -> (r: Option<OpId>)
    requires
        ir.inv(),
    ensures
        r == region_owner(ir@, region),
{
    match ir.get_region(region) {
        Some(r) => r.parent_op,
        None => None,
    }
}

/// The operation that owns the region `block` sits in.
pub fn owner_of_block(ir: &Ir, block: BlockId) -> (r: Option<OpId>)
    requires
        ir.inv(),
    ensures
        r == block_owner(ir@, block),
{
    match ir.get_block(block) {
        Some(b) => match b.parent {
            Some(region) => owner_of_region(ir, region),
            None => None,
        },
        None => None,
    }
}

/// The operation enclosing `op`.
pub fn enclosing_op(ir: &Ir, op: OpId) -> (r: Option<OpId>)
    requires
        ir.inv(),
    ensures
        r == enclosing(ir@, op),
{
    match ir.get_op(op) {
        Some(o) => match o.parent {
            Some(Parent::Block(block)) => owner_of_block(ir, block),
            Some(Parent::Region(region)) => owner_of_region(ir, region),
            None => None,
        },
        None => None,
    }
}

impl Journal {
    /// A journal that reports nothing.
    pub fn new() -> (r: Self)
        ensures
            r@ == JournalView::empty(),
    {
        let r = Journal { revision: Vec::new(), dirty: Vec::new() };
        assert(r@.revision =~= Seq::empty());
        assert(r@.dirty =~= Seq::empty());
        r
    }

    /// How often `op`'s subtree was edited.
    pub fn revision(&self, op: OpId) -> (n: u32)
        ensures
            n == revision_of(self@, op),
    {
        if (op.0 as usize) < self.revision.len() {
            self.revision[op.0 as usize]
        } else {
            0
        }
    }

    /// The revisions, by operation id.
    pub fn revisions(&self) -> (r: &Vec<u32>)
        ensures
            r@ == self@.revision,
    {
        &self.revision
    }

    /// Moves the revision of `op` one further.
    pub fn bump(&mut self, op: OpId)
        ensures
            final(self)@ == old(self)@.bump(op),
    {
        if op.0 == NO_OP {
            return;
        }
        let at: usize = op.0 as usize;
        let ghost before = self@;
        while self.revision.len() <= at
            invariant
                at == op.0,
                op.0 < NO_OP,
                self.dirty@ == before.dirty,
                before.revision.len() <= self.revision.len(),
                self.revision.len() == before.revision.len() || self.revision.len() <= at + 1,
                forall|i: int|
                    0 <= i < self.revision.len() ==> #[trigger] self.revision[i] == if i
                        < before.revision.len() {
                        before.revision[i]
                    } else {
                        0
                    },
            decreases at + 1 - self.revision.len(),
        {
            self.revision.push(0);
        }
        let n: u32 = self.revision[at];
        let next: u32 = if n == u32::MAX {
            n
        } else {
            n + 1
        };
        self.revision.set(at, next);
        assert(self@.revision =~= before.bump(op).revision);
    }

    fn mark(&mut self, op: OpId)
        ensures
            final(self)@ == old(self)@.mark(op),
    {
        if self.dirty.len() > 0 && self.dirty[self.dirty.len() - 1] == op {
            return;
        }
        self.dirty.push(op);
    }

    /// `op`'s subtree changed.
    pub fn edit_subtree(&mut self, ir: &Ir, op: OpId)
        requires
            ir.inv(),
        ensures
            final(self)@ == old(self)@.edit_subtree(ir@, op),
    {
        self.mark(op);
        let ghost want = old(self)@.edit_subtree(ir@, op);
        let mut current: Option<OpId> = Some(op);
        proof {
            ir.inv_wf();
        }
        let limit: u64 = ir.op_count() as u64;
        let mut step: u64 = 0;
        while step <= limit && current.is_some()
            invariant
                ir.inv(),
                step <= limit + 1,
                limit == ir@.ops.now.len(),
                limit <= u32::MAX,
                want == self@.bump_all(
                    match current {
                        Some(here) => spine(ir@, here, (spine_limit(ir@) - step) as nat),
                        None => Seq::empty(),
                    },
                ),
            decreases limit + 1 - step,
        {
            let here: OpId = current.unwrap();
            let ghost walk = spine(ir@, here, (spine_limit(ir@) - step) as nat);
            let outer = enclosing_op(ir, here);
            assert(walk[0] == here);
            let ghost rest = match outer {
                Some(o) => spine(ir@, o, (spine_limit(ir@) - step - 1) as nat),
                None => Seq::<OpId>::empty(),
            };
            assert(walk.skip(1) =~= rest);
            self.bump(here);
            current = outer;
            step = step + 1;
        }
    }

    /// `op` itself changed.
    pub fn edit_op(&mut self, ir: &Ir, op: OpId)
        requires
            ir.inv(),
        ensures
            final(self)@ == old(self)@.edit_op(ir@, op),
    {
        self.bump(op);
        match enclosing_op(ir, op) {
            Some(outer) => self.edit_subtree(ir, outer),
            None => self.mark(op),
        }
    }

    /// What `block` holds changed.
    pub fn edit_block(&mut self, ir: &Ir, block: BlockId)
        requires
            ir.inv(),
        ensures
            final(self)@ == old(self)@.edit_block(ir@, block),
    {
        if let Some(op) = owner_of_block(ir, block) {
            self.edit_subtree(ir, op);
        }
    }

    /// What `region` holds changed.
    pub fn edit_region(&mut self, ir: &Ir, region: RegionId)
        requires
            ir.inv(),
        ensures
            final(self)@ == old(self)@.edit_region(ir@, region),
    {
        if let Some(op) = owner_of_region(ir, region) {
            self.edit_subtree(ir, op);
        }
    }

    /// Hands out the dirtied operations, in the order they were noted, and
    /// forgets them.
    pub fn take_dirty(&mut self) -> (r: Vec<OpId>)
        ensures
            r@ == old(self)@.dirty,
            final(self)@ == (JournalView { dirty: Seq::empty(), ..old(self)@ }),
    {
        let mut r: Vec<OpId> = Vec::new();
        std::mem::swap(&mut r, &mut self.dirty);
        assert(self@.dirty =~= Seq::empty());
        r
    }
}

/// An edit under an operation moves the operation's revision, short of the
/// counter's end.
pub proof fn edit_moves_every_enclosing_revision(
    journal: JournalView,
    ops: Seq<OpId>,
    i: int,
)
    requires
        0 <= i < ops.len(),
        ops[i].0 != NO_OP,
        revision_of(journal, ops[i]) < u32::MAX,
    ensures
        revision_of(journal.bump_all(ops), ops[i]) > revision_of(journal, ops[i]),
    decreases ops.len(),
{
    let first = journal.bump(ops[0]);
    bump_never_lowers(journal, ops[0], ops[i]);
    if i == 0 {
        bump_all_never_lowers(first, ops.skip(1), ops[0]);
    } else {
        assert(ops.skip(1)[i - 1] == ops[i]);
        if revision_of(first, ops[i]) < u32::MAX {
            edit_moves_every_enclosing_revision(first, ops.skip(1), i - 1);
        } else {
            bump_all_never_lowers(first, ops.skip(1), ops[i]);
        }
    }
}

proof fn bump_never_lowers(journal: JournalView, op: OpId, other: OpId)
    ensures
        revision_of(journal.bump(op), other) >= revision_of(journal, other),
        op == other && op.0 != NO_OP && revision_of(journal, op) < u32::MAX ==> revision_of(
            journal.bump(op),
            op,
        ) == revision_of(journal, op) + 1,
{
}

proof fn bump_all_never_lowers(journal: JournalView, ops: Seq<OpId>, other: OpId)
    ensures
        revision_of(journal.bump_all(ops), other) >= revision_of(journal, other),
    decreases ops.len(),
{
    if ops.len() > 0 {
        bump_never_lowers(journal, ops[0], other);
        bump_all_never_lowers(journal.bump(ops[0]), ops.skip(1), other);
    }
}

} // verus!

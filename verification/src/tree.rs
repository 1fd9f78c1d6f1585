//! Walks of the operation tree: every operation under a root, an operation
//! before what it holds.
use vstd::prelude::*;
use crate::context::sound::region_ops_are_live;
use crate::context::Context;
use crate::context::ContextView;
use crate::ids::OpId;
use crate::ids::RegionId;

verus! {

/// What a walk goes on with after an operation.
pub type Kids = spec_fn(OpId) -> Seq<OpId>;

/// Whether the walk from `op` ends within `n` levels.
pub open spec fn nested(kids: Kids, op: OpId, n: nat) -> bool
    decreases n,
{
    n > 0 && forall|i: int|
        0 <= i < kids(op).len() ==> nested(kids, #[trigger] kids(op)[i], (n - 1) as nat)
}

/// Whether the walk from `op` ends: nothing under it holds it.
pub open spec fn is_tree(kids: Kids, op: OpId) -> bool {
    exists|n: nat| nested(kids, op, n)
}

/// Whether the walk from each of `ops` ends.
pub open spec fn all_trees(kids: Kids, ops: Seq<OpId>) -> bool {
    forall|i: int| 0 <= i < ops.len() ==> is_tree(kids, #[trigger] ops[i])
}

/// The walk from `op`, `n` levels deep.
pub open spec fn preorder(kids: Kids, op: OpId, n: nat) -> Seq<OpId>
    decreases n, 0nat,
{
    if n == 0 {
        Seq::empty()
    } else {
        seq![op] + preorder_of(kids, kids(op), (n - 1) as nat)
    }
}

/// The walks from `ops` in a row, `n` levels deep.
pub open spec fn preorder_of(kids: Kids, ops: Seq<OpId>, n: nat) -> Seq<OpId>
    decreases n, 1 + ops.len(),
{
    if ops.len() == 0 {
        Seq::empty()
    } else {
        preorder(kids, ops[0], n) + preorder_of(kids, ops.skip(1), n)
    }
}

/// The walk from `op`: it comes first, then the walks of what it holds.
pub open spec fn walk(kids: Kids, op: OpId) -> Seq<OpId> {
    preorder(kids, op, choose|n: nat| nested(kids, op, n))
}

/// The walks from `ops` in a row.
pub open spec fn walk_of(kids: Kids, ops: Seq<OpId>) -> Seq<OpId>
    decreases ops.len(),
{
    if ops.len() == 0 {
        Seq::empty()
    } else {
        walk(kids, ops[0]) + walk_of(kids, ops.skip(1))
    }
}

/// A walk that ends within some levels ends within more.
pub proof fn nested_rises(kids: Kids, op: OpId, n: nat, m: nat)
    requires
        nested(kids, op, n),
        n <= m,
    ensures
        nested(kids, op, m),
    decreases n,
{
    assert forall|i: int| 0 <= i < kids(op).len() implies nested(
        kids,
        #[trigger] kids(op)[i],
        (m - 1) as nat,
    ) by {
        nested_rises(kids, kids(op)[i], (n - 1) as nat, (m - 1) as nat);
    }
}

proof fn depth_is_enough(kids: Kids, op: OpId, n: nat, m: nat)
    requires
        nested(kids, op, n),
        n <= m,
    ensures
        preorder(kids, op, n) == preorder(kids, op, m),
    decreases n, 0nat,
{
    assert forall|i: int| 0 <= i < kids(op).len() implies nested(
        kids,
        #[trigger] kids(op)[i],
        (n - 1) as nat,
    ) by {}
    depth_is_enough_for_all(kids, kids(op), (n - 1) as nat, (m - 1) as nat);
}

proof fn depth_is_enough_for_all(kids: Kids, ops: Seq<OpId>, n: nat, m: nat)
    requires
        forall|i: int| 0 <= i < ops.len() ==> nested(kids, #[trigger] ops[i], n),
        n <= m,
    ensures
        preorder_of(kids, ops, n) == preorder_of(kids, ops, m),
    decreases n, 1 + ops.len(),
{
    if ops.len() > 0 {
        assert(nested(kids, ops[0], n));
        depth_is_enough(kids, ops[0], n, m);
        let rest = ops.skip(1);
        assert forall|i: int| 0 <= i < rest.len() implies nested(kids, #[trigger] rest[i], n) by {
            assert(rest[i] == ops[i + 1]);
        }
        depth_is_enough_for_all(kids, rest, n, m);
    }
}

proof fn walk_is_preorder(kids: Kids, op: OpId, n: nat)
    requires
        nested(kids, op, n),
    ensures
        walk(kids, op) == preorder(kids, op, n),
{
    let m = choose|m: nat| nested(kids, op, m);
    assert(nested(kids, op, m));
    if n <= m {
        depth_is_enough(kids, op, n, m);
    } else {
        depth_is_enough(kids, op, m, n);
    }
}

/// Walks that end within `n` levels are those `n` levels deep.
pub proof fn walks_are_preorders(kids: Kids, ops: Seq<OpId>, n: nat)
    requires
        forall|i: int| 0 <= i < ops.len() ==> nested(kids, #[trigger] ops[i], n),
    ensures
        walk_of(kids, ops) == preorder_of(kids, ops, n),
    decreases ops.len(),
{
    if ops.len() > 0 {
        assert(nested(kids, ops[0], n));
        walk_is_preorder(kids, ops[0], n);
        let rest = ops.skip(1);
        assert forall|i: int| 0 <= i < rest.len() implies nested(kids, #[trigger] rest[i], n) by {
            assert(rest[i] == ops[i + 1]);
        }
        walks_are_preorders(kids, rest, n);
    }
}

/// The walk from an operation is the operation, then the walks of what it
/// holds, which all end.
pub proof fn walk_unfolds(kids: Kids, op: OpId)
    requires
        is_tree(kids, op),
    ensures
        all_trees(kids, kids(op)),
        walk(kids, op) == seq![op] + walk_of(kids, kids(op)),
{
    let n = choose|n: nat| nested(kids, op, n);
    assert(nested(kids, op, n));
    assert forall|i: int| 0 <= i < kids(op).len() implies nested(
        kids,
        #[trigger] kids(op)[i],
        (n - 1) as nat,
    ) by {}
    walks_are_preorders(kids, kids(op), (n - 1) as nat);
}

/// Walks of two lists in a row.
pub proof fn walks_concatenate(kids: Kids, a: Seq<OpId>, b: Seq<OpId>)
    ensures
        walk_of(kids, a + b) == walk_of(kids, a) + walk_of(kids, b),
    decreases a.len(),
{
    if a.len() == 0 {
        assert(a + b =~= b);
        assert(walk_of(kids, a) + walk_of(kids, b) =~= walk_of(kids, b));
    } else {
        walks_concatenate(kids, a.skip(1), b);
        assert((a + b).skip(1) =~= a.skip(1) + b);
        assert((a + b)[0] == a[0]);
        assert(walk_of(kids, a + b) =~= walk_of(kids, a) + walk_of(kids, b));
    }
}

/// Every operation of a walk is one of the roots or is held by one of the walk.
pub proof fn walk_members(kids: Kids, op: OpId)
    requires
        is_tree(kids, op),
    ensures
        walk(kids, op).contains(op),
        forall|i: int|
            0 <= i < kids(op).len() ==> walk(kids, op).contains(#[trigger] kids(op)[i]),
{
    walk_unfolds(kids, op);
    let w = walk(kids, op);
    assert(w[0] == op);
    assert forall|i: int| 0 <= i < kids(op).len() implies walk(kids, op).contains(
        #[trigger] kids(op)[i],
    ) by {
        walk_has_roots(kids, kids(op), i);
        let x = kids(op)[i];
        let below = walk_of(kids, kids(op));
        let k = choose|k: int| 0 <= k < below.len() && below[k] == x;
        assert(w[k + 1] == x);
    }
}

proof fn walk_has_roots(kids: Kids, ops: Seq<OpId>, i: int)
    requires
        all_trees(kids, ops),
        0 <= i < ops.len(),
    ensures
        walk_of(kids, ops).contains(ops[i]),
    decreases ops.len(),
{
    assert(is_tree(kids, ops[0]));
    if i == 0 {
        walk_unfolds(kids, ops[0]);
        assert(walk_of(kids, ops)[0] == ops[0]);
    } else {
        let rest = ops.skip(1);
        assert forall|j: int| 0 <= j < rest.len() implies is_tree(kids, #[trigger] rest[j]) by {
            assert(rest[j] == ops[j + 1]);
        }
        walk_has_roots(kids, rest, i - 1);
        let below = walk_of(kids, rest);
        let k = choose|k: int| 0 <= k < below.len() && below[k] == rest[i - 1];
        assert(walk_of(kids, ops)[walk(kids, ops[0]).len() + k] == ops[i]);
    }
}

impl ContextView {
    /// The operations the first `n` regions of `op` hold, region by region.
    pub open spec fn held_by_regions(self, regions: Seq<RegionId>, n: nat) -> Seq<OpId>
        decreases n,
    {
        if n == 0 || n > regions.len() {
            Seq::empty()
        } else {
            self.held_by_regions(regions, (n - 1) as nat) + self.region_ops(regions[n - 1])
        }
    }

    /// The operations the regions of `op` hold, region by region.
    pub open spec fn children(self, op: OpId) -> Seq<OpId> {
        match self.ir.op(op) {
            Some(o) => self.held_by_regions(o.regions, o.regions.len()),
            None => Seq::empty(),
        }
    }

    /// The step of a walk that takes the regions of an operation in order.
    pub open spec fn kids(self) -> Kids {
        |op: OpId| self.children(op)
    }
}

/// What a live operation of a sound context holds is live.
pub proof fn children_are_live(context: ContextView, op: OpId)
    requires
        context.sound(),
    ensures
        context.all_live(context.children(op)),
{
    match context.ir.op(op) {
        Some(o) => {
            held_are_live(context, o.regions, o.regions.len());
        },
        None => {},
    }
}

proof fn held_are_live(context: ContextView, regions: Seq<RegionId>, n: nat)
    requires
        context.sound(),
    ensures
        context.all_live(context.held_by_regions(regions, n)),
    decreases n,
{
    if n > 0 && n <= regions.len() {
        held_are_live(context, regions, (n - 1) as nat);
        region_ops_are_live(context, regions[n - 1]);
    }
}

impl Context {
    /// The operations the regions of `op` hold, region by region.
    pub fn children(&self, op: OpId) -> (r: Vec<OpId>)
        requires
            self.inv(),
        ensures
            r@ == self@.children(op),
    {
        let mut r: Vec<OpId> = Vec::new();
        if !self.has_operation(op) {
            return r;
        }
        let regions = self.regions_of(op);
        let mut i: usize = 0;
        while i < regions.len()
            invariant
                self.inv(),
                i <= regions.len(),
                r@ == self@.held_by_regions(regions@, i as nat),
            decreases regions.len() - i,
        {
            let ghost before = r@;
            let mut held = self.region_op_ids(regions[i]);
            let ghost more = held@;
            r.append(&mut held);
            assert(r@ =~= before + more);
            i += 1;
        }
        r
    }
}

/// What a stack with the next operation on top goes through.
pub open spec fn stacked(stack: Seq<OpId>) -> Seq<OpId> {
    stack.reverse()
}

/// Taking the top of a stack and putting what it holds there instead goes one
/// step along the walk.
pub proof fn stack_step(kids: Kids, stack: Seq<OpId>, more: Seq<OpId>)
    requires
        stack.len() > 0,
        all_trees(kids, stack),
        more == kids(stack.last()),
    ensures
        all_trees(kids, stack.drop_last() + more.reverse()),
        walk_of(kids, stacked(stack)) == seq![stack.last()] + walk_of(
            kids,
            stacked(stack.drop_last() + more.reverse()),
        ),
{
    let op = stack.last();
    let rest = stack.drop_last();
    assert(is_tree(kids, op)) by {
        assert(stack[stack.len() - 1] == op);
    }
    walk_unfolds(kids, op);
    assert(stacked(stack) =~= seq![op] + stacked(rest));
    assert(stacked(rest + more.reverse()) =~= more + stacked(rest));
    walks_concatenate(kids, seq![op], stacked(rest));
    walks_concatenate(kids, more, stacked(rest));
    assert(seq![op].skip(1) =~= Seq::<OpId>::empty());
    assert(walk_of(kids, seq![op]) =~= walk(kids, op)) by {
        assert(walk_of(kids, seq![op].skip(1)) =~= Seq::<OpId>::empty());
    }
    assert(walk_of(kids, stacked(stack)) =~= seq![op] + walk_of(
        kids,
        stacked(rest + more.reverse()),
    ));
    let next = rest + more.reverse();
    assert forall|i: int| 0 <= i < next.len() implies is_tree(kids, #[trigger] next[i]) by {
        if i < rest.len() {
            assert(next[i] == stack[i]);
        } else {
            let j = more.len() - 1 - (i - rest.len());
            assert(next[i] == more[j]);
        }
    }
}

/// Puts `more` on a stack so that its first comes off first.
pub fn push_reversed(stack: &mut Vec<OpId>, more: &Vec<OpId>)
    ensures
        final(stack)@ == old(stack)@ + more@.reverse(),
{
    let ghost before = stack@;
    let mut i: usize = more.len();
    assert(stack@ =~= before + more@.skip(i as int).reverse());
    while i > 0
        invariant
            i <= more.len(),
            stack@ =~= before + more@.skip(i as int).reverse(),
        decreases i,
    {
        i -= 1;
        stack.push(more[i]);
        assert(more@.skip(i as int).reverse() =~= more@.skip(i + 1).reverse().push(more@[i as int]));
    }
    assert(more@.skip(0) =~= more@);
}

/// The walk from a root, one operation at a time.
pub fn walk_tree(context: &Context, root: OpId) -> (r: Vec<OpId>)
    requires
        context.inv(),
        is_tree(context@.kids(), root),
    ensures
        r@ == walk(context@.kids(), root),
{
    let ghost kids = context@.kids();
    let mut r: Vec<OpId> = Vec::new();
    let mut stack: Vec<OpId> = Vec::new();
    stack.push(root);
    proof {
        assert(stacked(stack@) =~= seq![root]);
        assert(seq![root].skip(1) =~= Seq::<OpId>::empty());
        assert(walk_of(kids, seq![root].skip(1)) =~= Seq::<OpId>::empty());
        assert(walk_of(kids, stacked(stack@)) =~= walk(kids, root));
        assert(r@ + walk_of(kids, stacked(stack@)) =~= walk(kids, root));
    }
    while stack.len() > 0
        invariant
            context.inv(),
            kids == context@.kids(),
            all_trees(kids, stack@),
            r@ + walk_of(kids, stacked(stack@)) == walk(kids, root),
        decreases walk_of(kids, stacked(stack@)).len(),
    {
        let ghost before = stack@;
        let ghost seen = r@;
        let op = stack.pop().unwrap();
        let more = context.children(op);
        proof {
            assert(more@ == kids(op));
            stack_step(kids, before, more@);
        }
        push_reversed(&mut stack, &more);
        r.push(op);
        assert(r@ + walk_of(kids, stacked(stack@)) =~= seen + (seq![op] + walk_of(
            kids,
            stacked(stack@),
        )));
    }
    assert(stacked(stack@) =~= Seq::<OpId>::empty());
    assert(r@ + walk_of(kids, stacked(stack@)) =~= r@);
    r
}

/// Every operation of a walk from a live root of a sound context is live.
pub proof fn walked_are_live(context: ContextView, op: OpId, n: nat)
    requires
        context.sound(),
        context.ir.op(op) is Some,
        nested(context.kids(), op, n),
    ensures
        context.all_live(preorder(context.kids(), op, n)),
    decreases n, 0nat,
{
    children_are_live(context, op);
    let kids = context.kids();
    assert forall|i: int| 0 <= i < kids(op).len() implies nested(
        kids,
        #[trigger] kids(op)[i],
        (n - 1) as nat,
    ) by {}
    assert(kids(op) == context.children(op));
    all_walked_are_live(context, kids(op), (n - 1) as nat);
}

proof fn all_walked_are_live(context: ContextView, ops: Seq<OpId>, n: nat)
    requires
        context.sound(),
        context.all_live(ops),
        forall|i: int| 0 <= i < ops.len() ==> nested(context.kids(), #[trigger] ops[i], n),
    ensures
        context.all_live(preorder_of(context.kids(), ops, n)),
    decreases n, 1 + ops.len(),
{
    if ops.len() > 0 {
        assert(context.ir.op(ops[0]) is Some);
        assert(nested(context.kids(), ops[0], n));
        walked_are_live(context, ops[0], n);
        let rest = ops.skip(1);
        assert forall|i: int| 0 <= i < rest.len() implies nested(
            context.kids(),
            #[trigger] rest[i],
            n,
        ) by {
            assert(rest[i] == ops[i + 1]);
        }
        assert forall|i: int| 0 <= i < rest.len() implies context.ir.op(
            #[trigger] rest[i],
        ) is Some by {
            assert(rest[i] == ops[i + 1]);
        }
        all_walked_are_live(context, rest, n);
    }
}

/// Every operation of a walk from a live root of a sound context is live.
pub proof fn walk_is_live(context: ContextView, op: OpId)
    requires
        context.sound(),
        context.ir.op(op) is Some,
        is_tree(context.kids(), op),
    ensures
        context.all_live(walk(context.kids(), op)),
{
    let n = choose|n: nat| nested(context.kids(), op, n);
    assert(nested(context.kids(), op, n));
    walked_are_live(context, op, n);
}

impl ContextView {
    /// The step of a walk that goes through what an operation holds from the
    /// last.
    pub open spec fn back_kids(self) -> Kids {
        |op: OpId| self.children(op).reverse()
    }
}

/// The walk from a root that goes through what an operation holds from the last.
pub fn walk_back(context: &Context, root: OpId) -> (r: Vec<OpId>)
    requires
        context.inv(),
        context@.sound(),
        context@.ir.op(root) is Some,
        is_tree(context@.back_kids(), root),
    ensures
        r@ == walk(context@.back_kids(), root),
        context@.all_live(r@),
{
    let ghost kids = context@.back_kids();
    let mut r: Vec<OpId> = Vec::new();
    let mut stack: Vec<OpId> = Vec::new();
    stack.push(root);
    proof {
        assert(stacked(stack@) =~= seq![root]);
        assert(seq![root].skip(1) =~= Seq::<OpId>::empty());
        assert(walk_of(kids, seq![root].skip(1)) =~= Seq::<OpId>::empty());
        assert(walk_of(kids, stacked(stack@)) =~= walk(kids, root));
        assert(r@ + walk_of(kids, stacked(stack@)) =~= walk(kids, root));
    }
    while stack.len() > 0
        invariant
            context.inv(),
            context@.sound(),
            kids == context@.back_kids(),
            all_trees(kids, stack@),
            context@.all_live(stack@),
            context@.all_live(r@),
            r@ + walk_of(kids, stacked(stack@)) == walk(kids, root),
        decreases walk_of(kids, stacked(stack@)).len(),
    {
        let ghost before = stack@;
        let ghost seen = r@;
        let op = stack.pop().unwrap();
        assert(context@.ir.op(before[before.len() - 1]) is Some);
        let mut more = context.children(op);
        let ghost held = more@;
        let ghost rest = stack@;
        proof {
            children_are_live(context@, op);
            assert(kids(op) == held.reverse());
            stack_step(kids, before, held.reverse());
            assert(held.reverse().reverse() =~= held);
        }
        stack.append(&mut more);
        assert(stack@ =~= rest + held);
        assert forall|k: int| 0 <= k < stack@.len() implies context@.ir.op(
            #[trigger] stack@[k],
        ) is Some by {
            if k < rest.len() {
                assert(stack@[k] == before[k]);
            } else {
                assert(stack@[k] == held[k - rest.len()]);
            }
        }
        r.push(op);
        assert(r@ + walk_of(kids, stacked(stack@)) =~= seen + (seq![op] + walk_of(
            kids,
            stacked(stack@),
        )));
    }
    assert(stacked(stack@) =~= Seq::<OpId>::empty());
    assert(r@ + walk_of(kids, stacked(stack@)) =~= r@);
    r
}

} // verus!

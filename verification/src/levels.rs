//! Walks of the operation tree level by level: the roots, then what they hold, then
//! what that holds, and so on.
use vstd::prelude::*;
use crate::context::Context;
use crate::ids::OpId;
use crate::seqs::add_contains;
use crate::tree::all_trees;
use crate::tree::children_are_live;
use crate::tree::is_tree;
use crate::tree::nested;
use crate::tree::nested_rises;
use crate::tree::preorder;
use crate::tree::preorder_of;
use crate::tree::walk_of;
use crate::tree::walks_are_preorders;
use crate::tree::Kids;

verus! {

/// What the operations of a level hold, in order.
pub open spec fn below(kids: Kids, ops: Seq<OpId>) -> Seq<OpId>
    decreases ops.len(),
{
    if ops.len() == 0 {
        Seq::empty()
    } else {
        kids(ops[0]) + below(kids, ops.skip(1))
    }
}

/// The first `n` levels from `ops` on.
pub open spec fn by_level(kids: Kids, ops: Seq<OpId>, n: nat) -> Seq<OpId>
    decreases n,
{
    if n == 0 || ops.len() == 0 {
        Seq::empty()
    } else {
        ops + by_level(kids, below(kids, ops), (n - 1) as nat)
    }
}

/// Whether the walk from each of `ops` ends within `n` levels.
pub open spec fn ends_within(kids: Kids, ops: Seq<OpId>, n: nat) -> bool {
    forall|i: int| 0 <= i < ops.len() ==> nested(kids, #[trigger] ops[i], n)
}

/// Every operation under `ops`, the roots included, level by level.
pub open spec fn level_order(kids: Kids, ops: Seq<OpId>) -> Seq<OpId> {
    by_level(kids, ops, choose|n: nat| ends_within(kids, ops, n))
}

proof fn levels_end(kids: Kids, ops: Seq<OpId>, n: nat)
    requires
        ends_within(kids, ops, n),
        n > 0,
    ensures
        ends_within(kids, below(kids, ops), (n - 1) as nat),
    decreases ops.len(),
{
    if ops.len() > 0 {
        let rest = ops.skip(1);
        assert forall|i: int| 0 <= i < rest.len() implies nested(kids, #[trigger] rest[i], n) by {
            assert(rest[i] == ops[i + 1]);
        }
        levels_end(kids, rest, n);
        let first = kids(ops[0]);
        let all = below(kids, ops);
        assert(nested(kids, ops[0], n));
        assert forall|i: int| 0 <= i < all.len() implies nested(
            kids,
            #[trigger] all[i],
            (n - 1) as nat,
        ) by {
            if i < first.len() {
                assert(all[i] == kids(ops[0])[i]);
            } else {
                assert(all[i] == below(kids, rest)[i - first.len()]);
            }
        }
    }
}

proof fn levels_are_enough(kids: Kids, ops: Seq<OpId>, n: nat, m: nat)
    requires
        ends_within(kids, ops, n),
        n <= m,
    ensures
        by_level(kids, ops, n) == by_level(kids, ops, m),
    decreases n,
{
    if ops.len() > 0 {
        assert(nested(kids, ops[0], n));
        levels_end(kids, ops, n);
        levels_are_enough(kids, below(kids, ops), (n - 1) as nat, (m - 1) as nat);
    }
}

proof fn trees_end(kids: Kids, ops: Seq<OpId>)
    requires
        all_trees(kids, ops),
    ensures
        exists|n: nat| ends_within(kids, ops, n),
    decreases ops.len(),
{
    if ops.len() == 0 {
        assert(ends_within(kids, ops, 0));
    } else {
        let rest = ops.skip(1);
        assert forall|i: int| 0 <= i < rest.len() implies is_tree(kids, #[trigger] rest[i]) by {
            assert(rest[i] == ops[i + 1]);
        }
        trees_end(kids, rest);
        let n = choose|n: nat| ends_within(kids, rest, n);
        assert(is_tree(kids, ops[0]));
        let m = choose|m: nat| nested(kids, ops[0], m);
        assert(nested(kids, ops[0], m));
        assert(ends_within(kids, ops, n + m)) by {
            assert forall|i: int| 0 <= i < ops.len() implies nested(
                kids,
                #[trigger] ops[i],
                n + m,
            ) by {
                if i == 0 {
                    nested_rises(kids, ops[0], m, n + m);
                } else {
                    assert(rest[i - 1] == ops[i]);
                    nested_rises(kids, ops[i], n, n + m);
                }
            }
        }
    }
}

proof fn preorders_concatenate(kids: Kids, a: Seq<OpId>, b: Seq<OpId>, n: nat)
    ensures
        preorder_of(kids, a + b, n) == preorder_of(kids, a, n) + preorder_of(kids, b, n),
    decreases a.len(),
{
    if a.len() == 0 {
        assert(a + b =~= b);
        assert(preorder_of(kids, a, n) + preorder_of(kids, b, n) =~= preorder_of(kids, b, n));
    } else {
        preorders_concatenate(kids, a.skip(1), b, n);
        assert((a + b).skip(1) =~= a.skip(1) + b);
        assert((a + b)[0] == a[0]);
        assert(preorder_of(kids, a + b, n) =~= preorder_of(kids, a, n) + preorder_of(kids, b, n));
    }
}

proof fn preorder_goes_below(kids: Kids, ops: Seq<OpId>, n: nat, op: OpId)
    ensures
        preorder_of(kids, ops, n).contains(op) <==> n > 0 && (ops.contains(op) || preorder_of(
            kids,
            below(kids, ops),
            (n - 1) as nat,
        ).contains(op)),
    decreases ops.len(),
{
    if ops.len() > 0 {
        let rest = ops.skip(1);
        preorder_goes_below(kids, rest, n, op);
        add_contains(preorder(kids, ops[0], n), preorder_of(kids, rest, n));
        assert(ops =~= seq![ops[0]] + rest);
        add_contains(seq![ops[0]], rest);
        assert(seq![ops[0]].contains(op) <==> op == ops[0]) by {
            assert(seq![ops[0]][0] == ops[0]);
        }
        if n > 0 {
            let m = (n - 1) as nat;
            preorders_concatenate(kids, kids(ops[0]), below(kids, rest), m);
            add_contains(
                preorder_of(kids, kids(ops[0]), m),
                preorder_of(kids, below(kids, rest), m),
            );
            add_contains(seq![ops[0]], preorder_of(kids, kids(ops[0]), m));
        }
    }
}

proof fn levels_hold_preorders(kids: Kids, ops: Seq<OpId>, n: nat, op: OpId)
    ensures
        by_level(kids, ops, n).contains(op) <==> preorder_of(kids, ops, n).contains(op),
    decreases n,
{
    preorder_goes_below(kids, ops, n, op);
    if n > 0 && ops.len() > 0 {
        let next = below(kids, ops);
        levels_hold_preorders(kids, next, (n - 1) as nat, op);
        add_contains(ops, by_level(kids, next, (n - 1) as nat));
    }
}

/// Level by level, a walk comes by the same operations.
pub proof fn levels_hold_what_walks_hold(kids: Kids, ops: Seq<OpId>, op: OpId)
    requires
        all_trees(kids, ops),
    ensures
        level_order(kids, ops).contains(op) <==> walk_of(kids, ops).contains(op),
{
    trees_end(kids, ops);
    let n = choose|n: nat| ends_within(kids, ops, n);
    levels_hold_preorders(kids, ops, n, op);
    walks_are_preorders(kids, ops, n);
}

impl Context {
    /// Every operation under `roots`, the roots included, level by level.
    pub fn subtree_ops(&self, roots: &Vec<OpId>) -> (r: Vec<OpId>)
        requires
            self.inv(),
            self@.sound(),
            self@.all_live(roots@),
            all_trees(self@.kids(), roots@),
        ensures
            r@ == level_order(self@.kids(), roots@),
            self@.all_live(r@),
    {
        let ghost kids = self@.kids();
        let ghost total = level_order(kids, roots@);
        let ghost mut left = choose|n: nat| ends_within(kids, roots@, n);
        proof {
            trees_end(kids, roots@);
        }
        let mut r: Vec<OpId> = Vec::new();
        let mut level: Vec<OpId> = crate::ir::copy_list(roots);
        assert(r@ + by_level(kids, level@, left) =~= total);
        while level.len() > 0
            invariant
                self.inv(),
                self@.sound(),
                kids == self@.kids(),
                self@.all_live(level@),
                self@.all_live(r@),
                ends_within(kids, level@, left),
                r@ + by_level(kids, level@, left) == total,
            decreases left,
        {
            proof {
                assert(nested(kids, level@[0], left));
                levels_end(kids, level@, left);
            }
            let ghost seen = r@;
            let ghost here = level@;
            let mut next: Vec<OpId> = Vec::new();
            let mut i: usize = 0;
            assert(here.skip(0) =~= here);
            assert(next@ + below(kids, here.skip(0)) =~= below(kids, here));
            while i < level.len()
                invariant
                    self.inv(),
                    self@.sound(),
                    kids == self@.kids(),
                    here == level@,
                    i <= level.len(),
                    self@.all_live(next@),
                    next@ + below(kids, here.skip(i as int)) == below(kids, here),
                decreases level.len() - i,
            {
                let ghost before = next@;
                let mut held = self.children(level[i]);
                let ghost more = held@;
                proof {
                    children_are_live(self@, here[i as int]);
                    assert(more == kids(here[i as int]));
                    assert(here.skip(i as int)[0] == here[i as int]);
                    assert(here.skip(i as int).skip(1) =~= here.skip(i + 1));
                }
                next.append(&mut held);
                proof {
                    assert(next@ =~= before + more);
                    assert(before + (more + below(kids, here.skip(i + 1))) =~= next@ + below(
                        kids,
                        here.skip(i + 1),
                    ));
                    assert forall|k: int| 0 <= k < next@.len() implies self@.ir.op(
                        #[trigger] next@[k],
                    ) is Some by {
                        if k < before.len() {
                            assert(next@[k] == before[k]);
                        } else {
                            assert(next@[k] == more[k - before.len()]);
                        }
                    }
                }
                i += 1;
            }
            assert(here.skip(i as int) =~= Seq::<OpId>::empty());
            assert(next@ =~= below(kids, here));
            r.append(&mut level);
            level = next;
            proof {
                assert(r@ =~= seen + here);
                left = (left - 1) as nat;
                assert(seen + (here + by_level(kids, level@, left)) =~= r@ + by_level(
                    kids,
                    level@,
                    left,
                ));
                assert forall|k: int| 0 <= k < r@.len() implies self@.ir.op(
                    #[trigger] r@[k],
                ) is Some by {
                    if k < seen.len() {
                        assert(r@[k] == seen[k]);
                    } else {
                        assert(r@[k] == here[k - seen.len()]);
                    }
                }
            }
        }
        assert(by_level(kids, level@, left) =~= Seq::<OpId>::empty());
        assert(r@ =~= total);
        r
    }
}

} // verus!

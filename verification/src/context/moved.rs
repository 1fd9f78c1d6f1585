//! That replacing a value moves its uses, and nothing else.
use vstd::prelude::*;
use crate::context::moved_to;
use crate::context::regions::ops_reported;
use crate::context::regions::readers;
use crate::context::regions::readers_are_all;
use crate::context::regions::reads_replaced;
use crate::context::regions::substituted;
use crate::context::regions::value_replaced;
use crate::context::Context;
use crate::context::ContextView;
use crate::ids::OpId;
use crate::ids::ValueId;
use crate::ir::use_list;
use crate::ir::IrView;
use crate::ir::OpView;
use crate::ir::Use;

verus! {

/// What an operation is once it reads `new_value` where it read `old_value`.
pub open spec fn reading_new(op: Option<OpView>, old_value: ValueId, new_value: ValueId) -> Option<
    OpView,
> {
    match op {
        Some(held) => Some(
            OpView { operands: substituted(held.operands, old_value, new_value), ..held },
        ),
        None => None,
    }
}

proof fn replaced_ops(ir: IrView, ops: Seq<OpId>, a: ValueId, b: ValueId, n: nat)
    requires
        n <= ops.len(),
        a != b,
        forall|i: int| 0 <= i < ops.len() ==> ir.op(#[trigger] ops[i]) is Some,
    ensures
        ({
            let after = reads_replaced(ir, ops, a, b, n);
            forall|op: OpId| #[trigger]
                after.op(op) == if ops.take(n as int).contains(op) {
                    reading_new(ir.op(op), a, b)
                } else {
                    ir.op(op)
                }
        }),
    decreases n,
{
    if n > 0 {
        replaced_ops(ir, ops, a, b, (n - 1) as nat);
        let before = reads_replaced(ir, ops, a, b, (n - 1) as nat);
        let after = reads_replaced(ir, ops, a, b, n);
        let id = ops[n - 1];
        assert(ir.op(id) is Some);
        assert(ops.take(n as int) =~= ops.take(n - 1).push(id));
        assert forall|op: OpId| #[trigger]
            after.op(op) == if ops.take(n as int).contains(op) {
                reading_new(ir.op(op), a, b)
            } else {
                ir.op(op)
            } by {
            crate::seqs::push_contains(ops.take(n - 1), id);
            assert(ops.take(n as int).contains(op) <==> ops.take(n - 1).contains(op) || op == id);
            if op == id {
                let once = ir.op(id)->0.operands;
                assert(substituted(substituted(once, a, b), a, b) =~= substituted(once, a, b));
                assert(after.op(id) == Some(
                    OpView {
                        operands: substituted(before.op(id)->0.operands, a, b),
                        ..before.op(id)->0
                    },
                ));
            } else {
                assert(op.0 != id.0);
                assert(after.op(op) == before.op(op));
            }
        }
    } else {
        assert(ops.take(0) =~= Seq::empty());
    }
}

proof fn reporting_keeps_ir(context: ContextView, ops: Seq<OpId>, n: nat)
    ensures
        ops_reported(context, ops, n).ir == context.ir,
    decreases n,
{
    if n > 0 {
        reporting_keeps_ir(context, ops, (n - 1) as nat);
    }
}

/// Once a value is replaced, every operation reads the new value where it read the
/// old one, whether the tree holds it or not, and says the same otherwise: its other
/// operands, its results, its regions, its attributes and its place. A new value that
/// was itself replaced since the last commit is read as what answers for it.
pub proof fn replacing_changes_reads_alone(
    context: &Context,
    old_value: ValueId,
    new_value: ValueId,
    op: OpId,
)
    requires
        context.inv(),
        context@.replaceable(old_value, new_value),
        old_value != new_value,
    ensures
        value_replaced(context@, old_value, new_value).ir.op(op) == reading_new(
            context@.ir.op(op),
            old_value,
            context@.resolve(new_value),
        ),
{
    context.inv_wf();
    let before = context@;
    let n = before.ir.ops.now.len();
    let users = readers(before, old_value, n);
    readers_are_all(before, old_value, n);
    assert forall|i: int| 0 <= i < users.len() implies before.ir.op(#[trigger] users[i]) is Some by {
        assert(users.contains(users[i]));
    }
    let target = before.resolve(new_value);
    replaced_ops(before.ir, users, old_value, target, users.len());
    let ir = reads_replaced(before.ir, users, old_value, target, users.len());
    let moved = moved_to(before.moved, before.ir.values.committed.len(), old_value, target);
    reporting_keeps_ir(ContextView { ir, moved, ..before }, users, users.len());
    assert(users.take(users.len() as int) =~= users);
    assert(value_replaced(before, old_value, new_value).ir == ir);
    if !users.contains(op) {
        if let Some(held) = before.ir.op(op) {
            assert(op.0 < n);
            assert(!before.reads(op, old_value));
            assert forall|i: int| 0 <= i < held.operands.len() implies held.operands[i]
                != old_value by {
                assert(held.operands.contains(held.operands[i]));
            }
            assert(substituted(held.operands, old_value, target) =~= held.operands);
        }
    }
}

proof fn disjoint_lists_add_up(a: Seq<Use>, b: Seq<Use>, c: Seq<Use>)
    requires
        a.no_duplicates(),
        b.no_duplicates(),
        c.no_duplicates(),
        forall|u: Use| #[trigger] c.contains(u) <==> a.contains(u) || b.contains(u),
        forall|u: Use| #[trigger] a.contains(u) ==> !b.contains(u),
    ensures
        c.to_multiset() == a.to_multiset().add(b.to_multiset()),
{
    broadcast use vstd::seq_lib::group_to_multiset_ensures;

    a.lemma_multiset_has_no_duplicates();
    b.lemma_multiset_has_no_duplicates();
    c.lemma_multiset_has_no_duplicates();
    assert forall|u: Use| c.to_multiset().count(u) == a.to_multiset().count(u)
        + b.to_multiset().count(u) by {
        assert(c.contains(u) <==> a.contains(u) || b.contains(u));
        assert(c.to_multiset().contains(u) <==> c.contains(u));
        assert(a.to_multiset().contains(u) <==> a.contains(u));
        assert(b.to_multiset().contains(u) <==> b.contains(u));
    }
    assert(c.to_multiset() =~= a.to_multiset().add(b.to_multiset()));
}

/// Replacing a value moves its uses: the old value has none left, and the uses of the
/// new one are those it had and those the old one had, each as often.
pub proof fn replaced_uses_move(
    before: &Context,
    after: &Context,
    old_value: ValueId,
    new_value: ValueId,
)
    requires
        before.inv(),
        after.inv(),
        before@.replaceable(old_value, new_value),
        old_value != new_value,
        after@ == value_replaced(before@, old_value, new_value),
    ensures
        use_list(after@.ir.uses, old_value).len() == 0,
        use_list(after@.ir.uses, before@.resolve(new_value)).to_multiset() == use_list(
            before@.ir.uses,
            before@.resolve(new_value),
        ).to_multiset().add(use_list(before@.ir.uses, old_value).to_multiset()),
{
    let given = new_value;
    let new_value = before@.resolve(given);
    let a = use_list(before@.ir.uses, new_value);
    let b = use_list(before@.ir.uses, old_value);
    let c = use_list(after@.ir.uses, new_value);
    let d = use_list(after@.ir.uses, old_value);
    assert forall|u: Use|
        (#[trigger] c.contains(u) <==> a.contains(u) || b.contains(u)) && !d.contains(u) && (
        a.contains(u) ==> !b.contains(u)) by {
        before.use_lists_say_what_operands_say(new_value, u);
        before.use_lists_say_what_operands_say(old_value, u);
        after.use_lists_say_what_operands_say(new_value, u);
        after.use_lists_say_what_operands_say(old_value, u);
        replacing_changes_reads_alone(before, old_value, given, u.op);
        assert(after@.ir.op(u.op) == reading_new(before@.ir.op(u.op), old_value, new_value));
    }
    let slot = Use { op: OpId(0), index: 0 };
    before.use_lists_say_what_operands_say(new_value, slot);
    before.use_lists_say_what_operands_say(old_value, slot);
    after.use_lists_say_what_operands_say(new_value, slot);
    if d.len() > 0 {
        assert(d.contains(d[0]));
        assert(c.contains(d[0]) <==> a.contains(d[0]) || b.contains(d[0]));
    }
    assert forall|u: Use| #[trigger] a.contains(u) implies !b.contains(u) by {
        assert(c.contains(u) <==> a.contains(u) || b.contains(u));
    }
    disjoint_lists_add_up(a, b, c);
}

} // verus!

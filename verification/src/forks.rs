//! The fork and join discipline memory state follows.
use vstd::prelude::*;
use crate::context::Context;
use crate::context::ContextView;
use crate::error::Error;
use crate::error::ErrorView;
use crate::ids::OpId;
use crate::ids::ValueId;
use crate::interfaces::Interface;
use crate::text::cat3;
use crate::text::decimal;
use crate::text::decimal_string;
use crate::tree::is_tree;
use crate::tree::walk;
use crate::tree::walk_is_live;
use crate::tree::walk_tree;

verus! {

impl ContextView {
    /// Whether `op` leaves the memory it names as it found it. An operation
    /// declaring both memory interfaces writes the extent it reads, so it is no
    /// observer; anything a machine does short of writing leaves memory alone.
    pub open spec fn observes_only(self, op: OpId) -> bool {
        if self.is_op(op, "state"@, "join"@) {
            true
        } else if self.has_interface(op, Interface::MachineInstruction) {
            !self.has_interface(op, Interface::MachineWrite)
        } else {
            self.has_interface(op, Interface::MemoryRead) && !self.has_interface(
                op,
                Interface::MemoryWrite,
            )
        }
    }

    /// Whether `op` consumes the dependency `value`. A terminator's dependency
    /// is a rename across the edge it takes, and the paths it forks a state
    /// along are exclusive.
    pub open spec fn takes(self, op: OpId, value: ValueId) -> bool {
        self.dep_operands(op).contains(value) && !self.has_interface(op, Interface::Terminator)
    }

    /// Whether `value` is named by two of `ops`, one of which changes it: that
    /// would describe two futures for one memory.
    pub open spec fn conflicted(self, ops: Seq<OpId>, value: ValueId) -> bool {
        exists|a: OpId, b: OpId|
            #![trigger self.takes(a, value), self.takes(b, value)]
            a != b && ops.contains(a) && ops.contains(b) && self.takes(a, value) && self.takes(
                b,
                value,
            ) && !self.observes_only(a)
    }
}

/// What a conflict over `value` is reported as.
pub open spec fn conflict_message(value: ValueId) -> Seq<char> {
    "dependency %"@ + decimal(value.0 as nat) + " is both observed and changed"@
}

/// Whether `op` leaves the memory it names as it found it.
pub fn observes_only(context: &Context, op: OpId) -> (r: bool)
    requires
        context.inv(),
        context@.readable(op),
    ensures
        r == context@.observes_only(op),
{
    if context.get_op(op).is_name(context, "state", "join") {
        return true;
    }
    if context.has_interface(op, Interface::MachineInstruction) {
        return !context.has_interface(op, Interface::MachineWrite);
    }
    context.has_interface(op, Interface::MemoryRead) && !context.has_interface(
        op,
        Interface::MemoryWrite,
    )
}

/// One consumption of a dependency.
struct Taken {
    value: ValueId,
    op: OpId,
    observes: bool,
}

spec fn lists(context: ContextView, taken: Seq<Taken>, op: OpId, value: ValueId) -> bool {
    exists|k: int|
        0 <= k < taken.len() && (#[trigger] taken[k]) == (Taken {
            value,
            op,
            observes: context.observes_only(op),
        })
}

/// Every consumption by one of the first `n` of `ops`, and no other.
spec fn lists_all(context: ContextView, taken: Seq<Taken>, ops: Seq<OpId>, n: int) -> bool {
    &&& forall|i: int, value: ValueId|
        #![trigger context.takes(ops[i], value)]
        0 <= i < n && context.takes(ops[i], value) ==> lists(context, taken, ops[i], value)
    &&& forall|k: int|
        0 <= k < taken.len() ==> (#[trigger] taken[k]).observes == context.observes_only(
            taken[k].op,
        ) && context.takes(taken[k].op, taken[k].value) && ops.contains(taken[k].op)
}

fn consumptions(context: &Context, ops: &Vec<OpId>) -> (taken: Vec<Taken>)
    requires
        context.inv(),
        context@.sound(),
        context@.all_live(ops@),
    ensures
        lists_all(context@, taken@, ops@, ops@.len() as int),
{
    let mut taken: Vec<Taken> = Vec::new();
    let mut i: usize = 0;
    while i < ops.len()
        invariant
            context.inv(),
            context@.sound(),
            context@.all_live(ops@),
            i <= ops.len(),
            lists_all(context@, taken@, ops@, i as int),
        decreases ops.len() - i,
    {
        let op = ops[i];
        assert(context@.ir.op(ops@[i as int]) is Some);
        assert(context@.op_sound(op));
        let observes = observes_only(context, op);
        let carried = context.has_interface(op, Interface::Terminator);
        if carried {
            i += 1;
            continue;
        }
        let deps = context.get_op(op).dep_operands(context).to_vec();
        let ghost before = taken@;
        let mut j: usize = 0;
        while j < deps.len()
            invariant
                context.inv(),
                i < ops.len(),
                op == ops@[i as int],
                j <= deps.len(),
                deps@ == context@.dep_operands(op),
                observes == context@.observes_only(op),
                !context@.has_interface(op, Interface::Terminator),
                lists_all(context@, taken@, ops@, i as int),
                forall|k: int|
                    0 <= k < j ==> lists(context@, taken@, op, #[trigger] deps@[k]),
            decreases deps.len() - j,
        {
            let ghost held = taken@;
            let item = Taken { value: deps[j], op, observes };
            taken.push(item);
            proof {
                assert forall|o: OpId, v: ValueId| lists(context@, held, o, v) implies #[trigger] lists(
                    context@,
                    taken@,
                    o,
                    v,
                ) by {
                    let k = choose|k: int|
                        0 <= k < held.len() && (#[trigger] held[k]) == (Taken {
                            value: v,
                            op: o,
                            observes: context@.observes_only(o),
                        });
                    assert(taken@[k] == held[k]);
                }
                assert(taken@[held.len() as int] == item);
                assert(lists(context@, taken@, op, deps@[j as int]));
                assert(context@.takes(op, deps@[j as int]));
                assert forall|k: int| 0 <= k < taken@.len() implies (
                #[trigger] taken@[k]).observes == context@.observes_only(taken@[k].op)
                    && context@.takes(taken@[k].op, taken@[k].value) && ops@.contains(
                    taken@[k].op,
                ) by {
                    if k < held.len() {
                        assert(taken@[k] == held[k]);
                    }
                }
            }
            j += 1;
        }
        proof {
            assert forall|k: int, value: ValueId|
                #![trigger context@.takes(ops@[k], value)]
                0 <= k < i + 1 && context@.takes(ops@[k], value) implies lists(
                context@,
                taken@,
                ops@[k],
                value,
            ) by {
                if k == i {
                    let at = choose|at: int| 0 <= at < deps@.len() && deps@[at] == value;
                    assert(lists(context@, taken@, op, deps@[at]));
                }
            }
        }
        i += 1;
    }
    taken
}

/// Checks the fork and join discipline memory state follows.
///
/// A dependency names the memory at one point in the program, so at most one
/// operation may change it: a second would describe two futures for one memory.
/// Everything else naming it observes it, and any number of those may, unordered
/// against each other. One operation naming a state twice observes it once:
/// joining a memory with itself is that memory.
///
/// State crossing a region boundary does so as a carried argument, which is a
/// fresh value, so a single walk of the whole tree suffices. Where more than
/// one dependency is both observed and changed, any one of them is reported.
pub fn verify_state_forks(context: &Context, root: OpId) -> (r: Result<(), Error>)
    requires
        context.inv(),
        context@.sound(),
        context@.ir.op(root) is Some,
        is_tree(context@.kids(), root),
    ensures
        r is Ok <==> forall|value: ValueId|
            !#[trigger] context@.conflicted(walk(context@.kids(), root), value),
        r is Err ==> exists|value: ValueId| #[trigger]
            context@.conflicted(walk(context@.kids(), root), value) && r->Err_0@
                == ErrorView::VerificationError(conflict_message(value)),
{
    let ops = walk_tree(context, root);
    proof {
        walk_is_live(context@, root);
    }
    let taken = consumptions(context, &ops);
    let ghost n = taken@.len() as int;
    let mut i: usize = 0;
    while i < taken.len()
        invariant
            i <= taken.len(),
            n == taken@.len(),
            ops@ == walk(context@.kids(), root),
            lists_all(context@, taken@, ops@, ops@.len() as int),
            forall|a: int, b: int|
                #![trigger taken@[a], taken@[b]]
                0 <= a < i && 0 <= b < n && taken@[a].value == taken@[b].value && taken@[a].op
                    != taken@[b].op ==> taken@[a].observes,
        decreases taken.len() - i,
    {
        let mut j: usize = 0;
        while j < taken.len()
            invariant
                i < taken.len(),
                j <= taken.len(),
                n == taken@.len(),
                ops@ == walk(context@.kids(), root),
                lists_all(context@, taken@, ops@, ops@.len() as int),
                forall|b: int|
                    0 <= b < j && taken@[i as int].value == (#[trigger] taken@[b]).value
                        && taken@[i as int].op != taken@[b].op ==> taken@[i as int].observes,
            decreases taken.len() - j,
        {
            if taken[i].value == taken[j].value && taken[i].op != taken[j].op
                && !taken[i].observes {
                let value = taken[i].value;
                proof {
                    let a = taken@[i as int];
                    let b = taken@[j as int];
                    assert(context@.takes(a.op, value) && context@.takes(b.op, value));
                    assert(context@.conflicted(ops@, value));
                }
                let message = cat3(
                    "dependency %",
                    decimal_string(value.0 as u64).as_str(),
                    " is both observed and changed",
                );
                return Err(Error::VerificationError(message));
            }
            j += 1;
        }
        i += 1;
    }
    proof {
        assert forall|value: ValueId| !#[trigger] context@.conflicted(ops@, value) by {
            if context@.conflicted(ops@, value) {
                let (a, b) = choose|a: OpId, b: OpId|
                    #![trigger context@.takes(a, value), context@.takes(b, value)]
                    a != b && ops@.contains(a) && ops@.contains(b) && context@.takes(a, value)
                        && context@.takes(b, value) && !context@.observes_only(a);
                let p = choose|p: int| 0 <= p < ops@.len() && ops@[p] == a;
                let q = choose|q: int| 0 <= q < ops@.len() && ops@[q] == b;
                assert(context@.takes(ops@[p], value));
                assert(context@.takes(ops@[q], value));
                assert(lists(context@, taken@, a, value));
                assert(lists(context@, taken@, b, value));
                let k = choose|k: int|
                    0 <= k < taken@.len() && (#[trigger] taken@[k]) == (Taken {
                        value,
                        op: a,
                        observes: context@.observes_only(a),
                    });
                let l = choose|l: int|
                    0 <= l < taken@.len() && (#[trigger] taken@[l]) == (Taken {
                        value,
                        op: b,
                        observes: context@.observes_only(b),
                    });
                assert(taken@[k].value == taken@[l].value && taken@[k].op != taken@[l].op);
            }
        }
    }
    Ok(())
}

/// No memory has two futures: where a dependency is not in conflict, every two of
/// the operations that consume it, other than to pass it across an edge, leave
/// the memory it stands for as they found it. A join does, a machine instruction
/// does unless it writes, anything else does where it reads and does not write.
/// Where it is in conflict, two consume it and one of them does not.
pub proof fn changed_memory_has_one_future(context: ContextView, ops: Seq<OpId>, value: ValueId)
    ensures
        !context.conflicted(ops, value) <==> forall|a: OpId, b: OpId|
            {
                &&& a != b
                &&& ops.contains(a)
                &&& ops.contains(b)
                &&& #[trigger] context.dep_operands(a).contains(value)
                &&& #[trigger] context.dep_operands(b).contains(value)
                &&& !context.has_interface(a, Interface::Terminator)
                &&& !context.has_interface(b, Interface::Terminator)
            } ==> {
                ||| context.identity(a) == ("state"@, "join"@)
                ||| context.has_interface(a, Interface::MachineInstruction)
                    && !context.has_interface(a, Interface::MachineWrite)
                ||| !context.has_interface(a, Interface::MachineInstruction)
                    && context.has_interface(a, Interface::MemoryRead) && !context.has_interface(
                    a,
                    Interface::MemoryWrite,
                )
            },
{
    if !context.conflicted(ops, value) {
        assert forall|a: OpId, b: OpId|
            {
                &&& a != b
                &&& ops.contains(a)
                &&& ops.contains(b)
                &&& #[trigger] context.dep_operands(a).contains(value)
                &&& #[trigger] context.dep_operands(b).contains(value)
                &&& !context.has_interface(a, Interface::Terminator)
                &&& !context.has_interface(b, Interface::Terminator)
            } implies {
            ||| context.identity(a) == ("state"@, "join"@)
            ||| context.has_interface(a, Interface::MachineInstruction) && !context.has_interface(
                a,
                Interface::MachineWrite,
            )
            ||| !context.has_interface(a, Interface::MachineInstruction) && context.has_interface(
                a,
                Interface::MemoryRead,
            ) && !context.has_interface(a, Interface::MemoryWrite)
        } by {
            assert(context.takes(a, value) && context.takes(b, value));
            assert(context.observes_only(a));
        }
    } else {
        let (a, b) = choose|a: OpId, b: OpId|
            #![trigger context.takes(a, value), context.takes(b, value)]
            a != b && ops.contains(a) && ops.contains(b) && context.takes(a, value)
                && context.takes(b, value) && !context.observes_only(a);
        assert(context.dep_operands(a).contains(value));
        assert(context.dep_operands(b).contains(value));
    }
}

} // verus!

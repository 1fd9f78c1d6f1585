//! What loops and gates must keep to be accepted, said of the lists their
//! binding lines up: operands, ports, region results and results.
use vstd::prelude::*;
use crate::attributes::AttrView;
use crate::attributes::Predicate;
use crate::binding::arm_failure;
use crate::binding::arms_failure;
use crate::binding::counted_failure;
use crate::binding::exits_failure;
use crate::binding::gamma_failure;
use crate::binding::ids_of;
use crate::binding::sliced;
use crate::binding::theta_failure;
use crate::binding::types_failure;
use crate::context::ContextView;
use crate::ids::OpId;
use crate::ids::RegionId;
use crate::ids::ValueId;
use crate::interfaces::Binding;
use crate::interfaces::IndexRange;
use crate::ty::TypeView;

verus! {

/// Whether a range lies within a list of `n`.
pub open spec fn within(range: IndexRange, n: nat) -> bool {
    range.start <= range.end <= n
}

proof fn no_type_differs(
    context: ContextView,
    name: Seq<char>,
    expected: Seq<ValueId>,
    found: Seq<ValueId>,
    what: Seq<char>,
    against: Seq<char>,
    n: int,
)
    ensures
        types_failure(context, name, expected, found, what, against, n) is None <==> forall|i: int|
            #![trigger expected[i]]
            #![trigger found[i]]
            0 <= i < n ==> context.type_of(expected[i]) == context.type_of(found[i]),
    decreases n,
{
    if n > 0 {
        no_type_differs(context, name, expected, found, what, against, n - 1);
        if types_failure(context, name, expected, found, what, against, n) is None {
            assert forall|i: int|
                #![trigger expected[i]]
                #![trigger found[i]]
                0 <= i < n implies context.type_of(expected[i]) == context.type_of(found[i]) by {}
        } else if types_failure(context, name, expected, found, what, against, n - 1) is None {
            assert(context.type_of(expected[n - 1]) != context.type_of(found[n - 1]));
        }
    }
}

/// The value `i` of the range of a list.
pub open spec fn at(values: Seq<ValueId>, range: IndexRange, i: int) -> ValueId {
    values[range.start + i]
}

proof fn slices_are_ranges(values: Seq<ValueId>, range: IndexRange)
    requires
        within(range, values.len()),
    ensures
        sliced(values, range).len() == range.end - range.start,
        forall|i: int|
            0 <= i < range.end - range.start ==> #[trigger] sliced(values, range)[i] == at(
                values,
                range,
                i,
            ),
{
}

/// A loop is accepted exactly where its body produces a predicate of one bit and,
/// of each value it carries, the operand it starts from, the port that holds it,
/// what the body hands on, what the body leaves with and the result have one
/// type, there being as many of each.
pub proof fn accepted_loops_carry_one_type_each(
    context: ContextView,
    op: OpId,
    name: Seq<char>,
    body: RegionId,
    binding: Binding,
    predicate: int,
)
    requires
        0 <= predicate,
        within(binding.operands, context.ir.op(op)->0.operands.len()),
        within(binding.ports, context.region_ports(body).len()),
        within(binding.continue_, context.region_results(body).len()),
        within(binding.exit, context.region_results(body).len()),
        within(binding.results, context.ir.op(op)->0.results.len()),
    ensures
        theta_failure(context, op, name, body, binding, predicate) is None <==> {
            let n = binding.operands.end - binding.operands.start;
            let operands = context.ir.op(op)->0.operands;
            let ports = context.region_ports(body);
            let handed = context.region_results(body);
            let results = context.ir.op(op)->0.results;
            &&& predicate < handed.len()
            &&& context.types[context.type_of(handed[predicate]).0 as int] == TypeView::Integer(1)
            &&& binding.ports.end - binding.ports.start == n
            &&& binding.continue_.end - binding.continue_.start == n
            &&& binding.exit.end - binding.exit.start == n
            &&& binding.results.end - binding.results.start == n
            &&& forall|i: int|
                0 <= i < n ==> {
                    let ty = context.type_of(#[trigger] at(operands, binding.operands, i));
                    &&& context.type_of(ports[binding.ports.start + i].id) == ty
                    &&& context.type_of(handed[binding.continue_.start + i]) == ty
                    &&& context.type_of(handed[binding.exit.start + i]) == ty
                    &&& context.type_of(results[binding.results.start + i]) == ty
                }
        },
{
    let n = binding.operands.end - binding.operands.start;
    let operands = context.ir.op(op)->0.operands;
    let ports = ids_of(context.region_ports(body));
    let handed = context.region_results(body);
    let results = context.ir.op(op)->0.results;
    let inits = sliced(operands, binding.operands);
    let carried = sliced(ports, binding.ports);
    let continued = sliced(handed, binding.continue_);
    let left = sliced(handed, binding.exit);
    let produced = sliced(results, binding.results);
    slices_are_ranges(operands, binding.operands);
    slices_are_ranges(ports, binding.ports);
    slices_are_ranges(handed, binding.continue_);
    slices_are_ranges(handed, binding.exit);
    slices_are_ranges(results, binding.results);
    if carried.len() == n && continued.len() == n && left.len() == n && produced.len() == n {
        no_type_differs(context, name, inits, carried, "port"@, "init"@, n);
        no_type_differs(context, name, carried, continued, "continue value"@, "port"@, n);
        no_type_differs(context, name, carried, left, "exit value"@, "port"@, n);
        no_type_differs(context, name, carried, produced, "result"@, "port"@, n);
        assert forall|i: int| 0 <= i < n implies {
            &&& inits[i] == #[trigger] at(operands, binding.operands, i)
            &&& carried[i] == context.region_ports(body)[binding.ports.start + i].id
            &&& continued[i] == handed[binding.continue_.start + i]
            &&& left[i] == handed[binding.exit.start + i]
            &&& produced[i] == results[binding.results.start + i]
        } by {
            assert(inits[i] == at(operands, binding.operands, i));
            assert(carried[i] == at(ports, binding.ports, i));
            assert(continued[i] == at(handed, binding.continue_, i));
            assert(left[i] == at(handed, binding.exit, i));
            assert(produced[i] == at(results, binding.results, i));
        }
        if theta_failure(context, op, name, body, binding, predicate) is None {
            assert forall|i: int| 0 <= i < n implies {
                let ty = context.type_of(#[trigger] at(operands, binding.operands, i));
                &&& context.type_of(context.region_ports(body)[binding.ports.start + i].id) == ty
                &&& context.type_of(handed[binding.continue_.start + i]) == ty
                &&& context.type_of(handed[binding.exit.start + i]) == ty
                &&& context.type_of(results[binding.results.start + i]) == ty
            } by {
                assert(context.type_of(inits[i]) == context.type_of(carried[i]));
                assert(context.type_of(carried[i]) == context.type_of(continued[i]));
                assert(context.type_of(carried[i]) == context.type_of(left[i]));
                assert(context.type_of(carried[i]) == context.type_of(produced[i]));
            }
        } else if forall|i: int|
            0 <= i < n ==> {
                let ty = context.type_of(#[trigger] at(operands, binding.operands, i));
                &&& context.type_of(context.region_ports(body)[binding.ports.start + i].id) == ty
                &&& context.type_of(handed[binding.continue_.start + i]) == ty
                &&& context.type_of(handed[binding.exit.start + i]) == ty
                &&& context.type_of(results[binding.results.start + i]) == ty
            } {
            assert forall|i: int| 0 <= i < n implies {
                &&& context.type_of(#[trigger] inits[i]) == context.type_of(carried[i])
                &&& context.type_of(carried[i]) == context.type_of(continued[i])
                &&& context.type_of(carried[i]) == context.type_of(left[i])
                &&& context.type_of(carried[i]) == context.type_of(produced[i])
            } by {
                assert(inits[i] == at(operands, binding.operands, i));
            }
            assert forall|i: int|
                #![trigger inits[i]]
                #![trigger carried[i]]
                0 <= i < n implies context.type_of(inits[i]) == context.type_of(carried[i]) by {
                assert(inits[i] == inits[i]);
            }
            assert forall|i: int|
                #![trigger carried[i]]
                #![trigger continued[i]]
                0 <= i < n implies context.type_of(carried[i]) == context.type_of(continued[i]) by {
                assert(inits[i] == inits[i]);
            }
            assert forall|i: int|
                #![trigger carried[i]]
                #![trigger left[i]]
                0 <= i < n implies context.type_of(carried[i]) == context.type_of(left[i]) by {
                assert(inits[i] == inits[i]);
            }
            assert forall|i: int|
                #![trigger carried[i]]
                #![trigger produced[i]]
                0 <= i < n implies context.type_of(carried[i]) == context.type_of(produced[i]) by {
                assert(inits[i] == inits[i]);
            }
        }
    }
}

/// Whether an arm fits its gate: it has a port for each value forwarded and a
/// result for each that its gate gives, of the same type each.
pub open spec fn arm_fits(
    context: ContextView,
    arm: RegionId,
    inputs: Seq<ValueId>,
    results: Seq<ValueId>,
) -> bool {
    let ports = context.region_ports(arm);
    let handed = context.region_results(arm);
    &&& ports.len() == inputs.len()
    &&& handed.len() == results.len()
    &&& forall|i: int|
        0 <= i < inputs.len() ==> context.type_of((#[trigger] ports[i]).id) == context.type_of(
            inputs[i],
        )
    &&& forall|i: int|
        0 <= i < results.len() ==> context.type_of(#[trigger] handed[i]) == context.type_of(
            results[i],
        )
}

proof fn arms_that_fit_do_not_fail(
    context: ContextView,
    name: Seq<char>,
    arm: RegionId,
    index: nat,
    inputs: Seq<ValueId>,
    results: Seq<ValueId>,
)
    ensures
        arm_failure(context, name, arm, index, inputs, results) is None <==> arm_fits(
            context,
            arm,
            inputs,
            results,
        ),
{
    let ports = ids_of(context.region_ports(arm));
    let handed = context.region_results(arm);
    let who = name + " arm "@ + crate::text::decimal(index);
    if ports.len() == inputs.len() && handed.len() == results.len() {
        no_type_differs(context, who, inputs, ports, "port"@, "input"@, inputs.len() as int);
        no_type_differs(context, who, results, handed, "value"@, "result"@, results.len() as int);
        assert forall|i: int| 0 <= i < ports.len() implies #[trigger] ports[i]
            == context.region_ports(arm)[i].id by {}
        if arm_failure(context, name, arm, index, inputs, results) is None {
            assert forall|i: int| 0 <= i < inputs.len() implies context.type_of(
                (#[trigger] context.region_ports(arm)[i]).id,
            ) == context.type_of(inputs[i]) by {
                assert(ports[i] == context.region_ports(arm)[i].id);
            }
        }
        if arm_fits(context, arm, inputs, results) {
            assert forall|i: int|
                #![trigger inputs[i]]
                #![trigger ports[i]]
                0 <= i < inputs.len() implies context.type_of(inputs[i]) == context.type_of(
                ports[i],
            ) by {
                assert(ports[i] == context.region_ports(arm)[i].id);
            }
            assert forall|i: int|
                #![trigger results[i]]
                #![trigger handed[i]]
                0 <= i < results.len() implies context.type_of(results[i]) == context.type_of(
                handed[i],
            ) by {
                assert(handed[i] == handed[i]);
            }
        }
    }
}

proof fn all_arms_fit(
    context: ContextView,
    name: Seq<char>,
    arms: Seq<RegionId>,
    inputs: Seq<ValueId>,
    results: Seq<ValueId>,
    n: int,
)
    requires
        0 <= n <= arms.len(),
    ensures
        arms_failure(context, name, arms, inputs, results, n) is None <==> forall|k: int|
            0 <= k < n ==> arm_fits(context, #[trigger] arms[k], inputs, results),
    decreases n,
{
    if n > 0 {
        all_arms_fit(context, name, arms, inputs, results, n - 1);
        arms_that_fit_do_not_fail(context, name, arms[n - 1], (n - 1) as nat, inputs, results);
    }
}

/// A gate is accepted exactly where it has an arm, every arm fits what it
/// forwards and produces, and as many memory states come out as go in.
pub proof fn accepted_gates_fit_their_arms(
    context: ContextView,
    op: OpId,
    name: Seq<char>,
    arms: Seq<RegionId>,
    binding: Binding,
)
    requires
        within(binding.operands, context.ir.op(op)->0.operands.len()),
        within(binding.results, context.ir.op(op)->0.results.len()),
    ensures
        gamma_failure(context, op, name, arms, binding) is None <==> {
            let inputs = context.ir.op(op)->0.operands.subrange(
                binding.operands.start as int,
                binding.operands.end as int,
            );
            let results = context.ir.op(op)->0.results.subrange(
                binding.results.start as int,
                binding.results.end as int,
            );
            &&& arms.len() > 0
            &&& forall|k: int|
                0 <= k < arms.len() ==> arm_fits(context, #[trigger] arms[k], inputs, results)
            &&& context.filtered(inputs, true).len() == context.filtered(results, true).len()
        },
{
    let inputs = sliced(context.ir.op(op)->0.operands, binding.operands);
    let results = sliced(context.ir.op(op)->0.results, binding.results);
    assert(inputs =~= context.ir.op(op)->0.operands.subrange(
        binding.operands.start as int,
        binding.operands.end as int,
    ));
    assert(results =~= context.ir.op(op)->0.results.subrange(
        binding.results.start as int,
        binding.results.end as int,
    ));
    all_arms_fit(context, name, arms, inputs, results, arms.len() as int);
}

proof fn exits_are_ports(name: Seq<char>, exits: Seq<ValueId>, ports: Seq<ValueId>, n: int)
    ensures
        exits_failure(name, exits, ports, n) is None <==> forall|i: int|
            #![trigger exits[i]]
            #![trigger ports[i]]
            0 <= i < n ==> exits[i] == ports[i],
    decreases n,
{
    if n > 0 {
        exits_are_ports(name, exits, ports, n - 1);
        if exits_failure(name, exits, ports, n) is None {
            assert forall|i: int|
                #![trigger exits[i]]
                #![trigger ports[i]]
                0 <= i < n implies exits[i] == ports[i] by {}
        } else if exits_failure(name, exits, ports, n - 1) is None {
            assert(exits[n - 1] != ports[n - 1]);
        }
    }
}

/// Whether `value` is what the operation `builtin.name` computes of two operands,
/// of which the one at `own` is `counter` and the other says the same as `other`.
pub open spec fn computed_of(
    context: ContextView,
    value: ValueId,
    name: Seq<char>,
    own: int,
    counter: ValueId,
    other: ValueId,
) -> bool {
    match context.ir.value(value)->0.value.defining_op {
        Some(op) => {
            let operands = context.ir.op(op)->0.operands;
            &&& context.identity(op) == ("builtin"@, name)
            &&& operands.len() == 2
            &&& operands[own] == counter
            &&& context.names_same(operands[1 - own], other)
        },
        None => false,
    }
}

/// A counted loop is accepted exactly where its counter is one of the ports it
/// carries, its predicate is the signed comparison whether the counter is below
/// the upper bound, the counter goes on as the sum of itself and the step, and
/// each value that leaves is the port that carries it.
pub proof fn accepted_counts_count_up_to_their_bound(
    context: ContextView,
    name: Seq<char>,
    body: RegionId,
    binding: Binding,
    predicate: int,
    induction: nat,
    upper: ValueId,
    step: ValueId,
)
    requires
        within(binding.ports, context.region_ports(body).len()),
        within(binding.exit, context.region_results(body).len()),
        binding.exit.end - binding.exit.start == binding.ports.end - binding.ports.start,
    ensures
        counted_failure(context, name, body, binding, predicate, induction, upper, step) is None
            <==> {
            let n = binding.ports.end - binding.ports.start;
            let ports = context.region_ports(body);
            let handed = context.region_results(body);
            let counter = ports[binding.ports.start + induction].id;
            let next = handed[binding.continue_.start + induction];
            let decision = handed[predicate];
            &&& induction < n
            &&& computed_of(context, decision, "cmpi"@, 0, counter, upper)
            &&& context.attr(
                context.ir.value(decision)->0.value.defining_op->0,
                "predicate"@,
            ) == Some(AttrView::Predicate(Predicate::Slt))
            &&& computed_of(context, next, "addi"@, 0, counter, step) || computed_of(
                context,
                next,
                "addi"@,
                1,
                counter,
                step,
            )
            &&& forall|i: int|
                0 <= i < n ==> #[trigger] at(handed, binding.exit, i)
                    == ports[binding.ports.start + i].id
        },
{
    let n = binding.ports.end - binding.ports.start;
    let ports = ids_of(context.region_ports(body));
    let handed = context.region_results(body);
    let exits = sliced(handed, binding.exit);
    let carried = sliced(ports, binding.ports);
    slices_are_ranges(handed, binding.exit);
    slices_are_ranges(ports, binding.ports);
    exits_are_ports(name, exits, carried, n);
    assert forall|i: int| 0 <= i < n implies {
        &&& exits[i] == #[trigger] at(handed, binding.exit, i)
        &&& carried[i] == context.region_ports(body)[binding.ports.start + i].id
    } by {
        assert(exits[i] == at(handed, binding.exit, i));
        assert(carried[i] == at(ports, binding.ports, i));
    }
    let lined = forall|i: int|
        0 <= i < n ==> #[trigger] at(handed, binding.exit, i) == context.region_ports(
            body,
        )[binding.ports.start + i].id;
    if exits_failure(name, exits, carried, n) is None {
        assert forall|i: int| 0 <= i < n implies #[trigger] at(handed, binding.exit, i)
            == context.region_ports(body)[binding.ports.start + i].id by {
            assert(exits[i] == carried[i]);
        }
    }
    if lined {
        assert forall|i: int|
            #![trigger exits[i]]
            #![trigger carried[i]]
            0 <= i < n implies exits[i] == carried[i] by {
            assert(exits[i] == at(handed, binding.exit, i));
        }
    }
}

} // verus!

//! What a step of the machine does, said of the operation it performs: where
//! control goes, which values are bound to what, and what stays as it was.
use vstd::prelude::*;
use crate::context::ContextView;
use crate::ids::BlockId;
use crate::ids::OpId;
use crate::ids::RegionId;
use crate::ids::ValueId;
use crate::interp::control::ControlView;
use crate::interp::env::bound_to;
use crate::interp::env::lambda;
use crate::interp::env::paired;
use crate::interp::env::restored;
use crate::interp::env::value_of;
use crate::interp::env::values_of;
use crate::interp::env::with_bound;
use crate::interp::env::EnvView;
use crate::interp::machine::carriers;
use crate::interp::machine::entry;
use crate::interp::machine::forwarded;
use crate::interp::machine::loop_values;
use crate::interp::machine::FlowView;
use crate::interp::machine::FrameView;
use crate::interp::machine::MachineView;
use crate::interp::machine::RoleView;
use crate::interp::machine::StepView;
use crate::interp::signed_value;
use crate::interp::ValueView;

verus! {

/// Whether the next operation is `op`, called `dialect.name`, in a frame that is
/// the innermost.
pub open spec fn next_is(
    context: ContextView,
    machine: MachineView,
    op: OpId,
    dialect: Seq<char>,
    name: Seq<char>,
) -> bool {
    let top = machine.frames[machine.frames.len() - 1];
    &&& machine.frames.len() > 0
    &&& context.ir.block(top.block) is Some
    &&& top.next < context.ir.block(top.block)->0.operations.len()
    &&& context.ir.block(top.block)->0.operations[top.next as int] == op
    &&& context.identity(op) == (dialect, name)
}

/// Whether `id` is `value`: it is bound to it, or is bound to nothing and names
/// the function it is.
pub open spec fn reads(context: ContextView, env: EnvView, id: ValueId, value: ValueView) -> bool {
    if env.contains_key(id) {
        env[id] == value
    } else {
        lambda(context, id) == Some(value)
    }
}

/// Whether `ids` are `values`, one by one.
pub open spec fn all_read(
    context: ContextView,
    env: EnvView,
    ids: Seq<ValueId>,
    values: Seq<ValueView>,
) -> bool {
    ids.len() == values.len() && forall|i: int|
        0 <= i < ids.len() ==> reads(context, env, #[trigger] ids[i], values[i])
}

/// Whether `after` has each of `ids` bound to the value beside it, as far as both
/// lists go. Of an id that stands twice the last counts.
pub open spec fn binds(after: EnvView, ids: Seq<ValueId>, values: Seq<ValueView>) -> bool {
    forall|i: int|
        0 <= i < ids.len() && i < values.len() && (forall|j: int|
            i < j < ids.len() ==> ids[j] != ids[i]) ==> after.contains_key(#[trigger] ids[i])
            && after[ids[i]] == values[i]
}

/// Whether `after` has each of `ids` bound to the value beside it, as far as both
/// lists go, and everything else bound as `before` has it.
pub open spec fn takes(
    before: EnvView,
    after: EnvView,
    ids: Seq<ValueId>,
    values: Seq<ValueView>,
) -> bool {
    &&& binds(after, ids, values)
    &&& forall|id: ValueId|
        !ids.contains(id) ==> (#[trigger] after.contains_key(id) <==> before.contains_key(id)) && (
        before.contains_key(id) ==> after[id] == before[id])
}

/// How many of the first `n` of `args` are no scope tokens.
pub open spec fn ordinary(context: ContextView, args: Seq<ValueId>, n: int) -> nat {
    args.take(n).filter(|v: ValueId| !context.is_token(v)).len()
}

/// Whether `after` has the arguments of a loop body bound to the values carried:
/// the first that is no token to the first, the next to the next, and each token
/// to a token; and everything else bound as `before` has it.
pub open spec fn takes_carried(
    context: ContextView,
    before: EnvView,
    after: EnvView,
    args: Seq<ValueId>,
    carried: Seq<ValueView>,
) -> bool {
    &&& forall|i: int|
        0 <= i < args.len() && (forall|j: int| i < j < args.len() ==> args[j] != args[i])
            ==> after.contains_key(#[trigger] args[i]) && after[args[i]] == if context.is_token(
            args[i],
        ) {
            ValueView::Token
        } else {
            carried[ordinary(context, args, i) as int]
        }
    &&& forall|id: ValueId|
        !args.contains(id) ==> (#[trigger] after.contains_key(id) <==> before.contains_key(id))
            && (before.contains_key(id) ==> after[id] == before[id])
}

/// Whether a decision is no: it stands for zero, or is no number.
pub open spec fn refuses(decision: ValueView) -> bool {
    match decision {
        ValueView::Int(n) => signed_value(n) == 0,
        _ => true,
    }
}

/// The frames with the innermost one past the operation it performs.
pub open spec fn advanced(machine: MachineView) -> Seq<FrameView> {
    let top = machine.frames[machine.frames.len() - 1];
    machine.frames.update(
        machine.frames.len() - 1,
        FrameView { role: top.role, block: top.block, next: (top.next + 1) as nat },
    )
}

/// The frames with one more, at the start of `block`.
pub open spec fn inside(frames: Seq<FrameView>, role: RoleView, block: BlockId) -> Seq<FrameView> {
    frames.push(FrameView { role, block, next: 0 })
}

/// Whether `region` starts in `block`, whose arguments are `args`.
pub open spec fn starts(
    context: ContextView,
    region: RegionId,
    block: BlockId,
    args: Seq<ValueId>,
) -> bool {
    &&& context.blocks_of(region).len() > 0
    &&& context.blocks_of(region)[0] == block
    &&& context.ir.block(block) is Some
    &&& args.len() == context.ir.block(block)->0.arguments.len()
    &&& forall|i: int|
        0 <= i < args.len() ==> #[trigger] args[i] == context.ir.block(block)->0.arguments[i].id
}

proof fn reading_is_found(
    context: ContextView,
    env: EnvView,
    ids: Seq<ValueId>,
    values: Seq<ValueView>,
)
    requires
        all_read(context, env, ids, values),
    ensures
        values_of(context, env, ids) == Ok::<Seq<ValueView>, crate::interp::InterpErrorView>(
            values,
        ),
    decreases ids.len(),
{
    if ids.len() > 0 {
        let shorter = ids.drop_last();
        assert forall|i: int| 0 <= i < shorter.len() implies reads(
            context,
            env,
            #[trigger] shorter[i],
            values.drop_last()[i],
        ) by {
            assert(shorter[i] == ids[i]);
        }
        reading_is_found(context, env, shorter, values.drop_last());
        assert(reads(context, env, ids[ids.len() - 1], values[ids.len() - 1]));
        assert(values.drop_last().push(values.last()) =~= values);
    } else {
        assert(values =~= Seq::empty());
    }
}

proof fn binding_takes_part(
    env: EnvView,
    ids: Seq<ValueId>,
    values: Seq<ValueView>,
    n: int,
)
    requires
        0 <= n <= ids.len(),
        n <= values.len(),
    ensures
        forall|i: int|
            0 <= i < n && (forall|j: int| i < j < n ==> ids[j] != ids[i]) ==> bound_to(
                env,
                ids,
                values,
                n,
            ).contains_key(#[trigger] ids[i]) && bound_to(env, ids, values, n)[ids[i]]
                == values[i],
        forall|id: ValueId|
            !ids.contains(id) ==> (#[trigger] bound_to(env, ids, values, n).contains_key(id)
                <==> env.contains_key(id)) && (env.contains_key(id) ==> bound_to(
                env,
                ids,
                values,
                n,
            )[id] == env[id]),
    decreases n,
{
    if n > 0 {
        binding_takes_part(env, ids, values, n - 1);
        let before = bound_to(env, ids, values, n - 1);
        let after = bound_to(env, ids, values, n);
        assert(after == before.insert(ids[n - 1], values[n - 1]));
        assert forall|i: int|
            0 <= i < n && (forall|j: int| i < j < n ==> ids[j] != ids[i]) implies after.contains_key(
            #[trigger] ids[i],
        ) && after[ids[i]] == values[i] by {
            if i < n - 1 {
                assert(ids[n - 1] != ids[i]);
            }
        }
        assert forall|id: ValueId| !ids.contains(id) implies (#[trigger] after.contains_key(id)
            <==> env.contains_key(id)) && (env.contains_key(id) ==> after[id] == env[id]) by {
            assert(ids[n - 1] != id);
            assert(before.contains_key(id) <==> env.contains_key(id));
        }
    }
}

proof fn binding_takes(env: EnvView, ids: Seq<ValueId>, values: Seq<ValueView>)
    ensures
        takes(env, with_bound(env, ids, values), ids, values),
{
    let n = paired(ids.len(), values.len());
    binding_takes_part(env, ids, values, n);
}

proof fn entries_start(
    context: ContextView,
    region: RegionId,
    block: BlockId,
    args: Seq<ValueId>,
)
    requires
        starts(context, region, block, args),
    ensures
        entry(context, region) == Some((block, args)),
{
    let b = context.ir.block(block)->0;
    assert(b.arguments.map_values(|v: crate::ir::Value| v.id) =~= args);
}

proof fn carriers_are_ordinary(context: ContextView, args: Seq<ValueId>, n: int)
    requires
        0 <= n <= args.len(),
    ensures
        carriers(context, args, n) == ordinary(context, args, n),
    decreases n,
{
    let plain = |v: ValueId| !context.is_token(v);
    reveal(Seq::filter);
    if n > 0 {
        carriers_are_ordinary(context, args, n - 1);
        assert(args.take(n).drop_last() =~= args.take(n - 1));
        assert(args.take(n).last() == args[n - 1]);
    }
}

proof fn ordinary_grows(context: ContextView, args: Seq<ValueId>, m: int, n: int)
    requires
        0 <= m <= n <= args.len(),
    ensures
        carriers(context, args, m) <= carriers(context, args, n),
    decreases n - m,
{
    if m < n {
        ordinary_grows(context, args, m, n - 1);
    }
}

proof fn carried_are_taken(
    context: ContextView,
    args: Seq<ValueId>,
    carried: Seq<ValueView>,
    n: int,
)
    requires
        0 <= n <= args.len(),
        carriers(context, args, n) <= carried.len(),
    ensures
        loop_values(context, args, carried, n) is Some,
        loop_values(context, args, carried, n)->0.len() == n,
        forall|i: int|
            0 <= i < n ==> #[trigger] loop_values(context, args, carried, n)->0[i]
                == if context.is_token(args[i]) {
                ValueView::Token
            } else {
                carried[carriers(context, args, i) as int]
            },
    decreases n,
{
    if n > 0 {
        ordinary_grows(context, args, n - 1, n);
        carried_are_taken(context, args, carried, n - 1);
    }
}

proof fn loops_take_carried(
    context: ContextView,
    env: EnvView,
    args: Seq<ValueId>,
    carried: Seq<ValueView>,
)
    requires
        ordinary(context, args, args.len() as int) <= carried.len(),
    ensures
        loop_values(context, args, carried, args.len() as int) is Some,
        takes_carried(
            context,
            env,
            with_bound(env, args, loop_values(context, args, carried, args.len() as int)->0),
            args,
            carried,
        ),
{
    let n = args.len() as int;
    carriers_are_ordinary(context, args, n);
    carried_are_taken(context, args, carried, n);
    let values = loop_values(context, args, carried, n)->0;
    binding_takes(env, args, values);
    assert forall|i: int| 0 <= i < n implies #[trigger] values[i] == if context.is_token(args[i]) {
        ValueView::Token
    } else {
        carried[ordinary(context, args, i) as int]
    } by {
        carriers_are_ordinary(context, args, i);
    }
}

/// The condition of a `scf.while` decides. Where `scf.condition` hands out a
/// decision that is zero, the loop is over: its results are the values carried
/// beside the decision, and control is where the loop was left to return to.
/// Where the decision is not zero, the body is entered at its start, with the
/// values carried as its arguments.
pub proof fn conditions_decide_their_loop(
    context: ContextView,
    machine: MachineView,
    op: OpId,
    owner: OpId,
    condition: RegionId,
    body: RegionId,
    decision: ValueView,
    carried: Seq<ValueView>,
    block: BlockId,
    args: Seq<ValueId>,
)
    requires
        next_is(context, machine, op, "scf"@, "condition"@),
        machine.frames[machine.frames.len() - 1].role == RoleView::Condition(
            owner,
            condition,
            body,
        ),
        all_read(
            context,
            machine.env,
            context.ir.op(op)->0.operands,
            seq![decision] + carried,
        ),
        context.ir.op(owner) is Some,
        starts(context, body, block, args),
        ordinary(context, args, args.len() as int) <= carried.len(),
    ensures
        match machine.stepping(context) {
            StepView::Ran(after) => if refuses(decision) {
                &&& after.frames == machine.frames.take(machine.frames.len() - 1)
                &&& takes(machine.env, after.env, context.ir.op(owner)->0.results, carried)
            } else {
                &&& after.frames == inside(
                    machine.frames.take(machine.frames.len() - 1),
                    RoleView::Body(owner, condition, body),
                    block,
                )
                &&& takes_carried(context, machine.env, after.env, args, carried)
            },
            _ => false,
        },
{
    let operands = context.ir.op(op)->0.operands;
    let values = seq![decision] + carried;
    let top = machine.frames.last();
    let going = machine.going(top.block, top.next + 1);
    reading_is_found(context, machine.env, operands, values);
    assert(context.control(op) == Some(ControlView::Yield));
    assert(machine.stepping(context) == going.performing(context, op, ControlView::Yield));
    assert(values[0] == decision);
    assert(values.skip(1) =~= carried);
    assert(going.frames.last().role == top.role);
    let rest = going.leaving();
    assert(rest.frames =~= machine.frames.take(machine.frames.len() - 1));
    entries_start(context, body, block, args);
    binding_takes(machine.env, context.ir.op(owner)->0.results, carried);
    loops_take_carried(context, machine.env, args, carried);
}

proof fn spellings()
    ensures
        "scf"@ != "func"@,
        "scf"@ != "cfg"@,
        "func"@ != "cfg"@,
        "while"@ != "yield"@,
        "while"@ != "condition"@,
        "while"@ != "break"@,
        "while"@ != "continue"@,
        "while"@ != "if"@,
        "while"@ != "switch"@,
        "while"@ != "for"@,
        "for"@ != "yield"@,
        "for"@ != "condition"@,
        "for"@ != "break"@,
        "for"@ != "continue"@,
        "for"@ != "if"@,
        "for"@ != "switch"@,
        "switch"@ != "yield"@,
        "switch"@ != "condition"@,
        "switch"@ != "break"@,
        "switch"@ != "continue"@,
        "switch"@ != "if"@,
        "if"@ != "yield"@,
        "if"@ != "condition"@,
        "if"@ != "break"@,
        "if"@ != "continue"@,
        "break"@ != "yield"@,
        "break"@ != "condition"@,
        "break"@ != "continue"@,
        "continue"@ != "yield"@,
        "continue"@ != "condition"@,
        "return"@ != "call"@,
        "br"@ != "cond_br"@,
{
    reveal_strlit("scf");
    reveal_strlit("func");
    reveal_strlit("cfg");
    reveal_strlit("while");
    reveal_strlit("yield");
    reveal_strlit("condition");
    reveal_strlit("break");
    reveal_strlit("continue");
    reveal_strlit("if");
    reveal_strlit("switch");
    reveal_strlit("for");
    reveal_strlit("return");
    reveal_strlit("call");
    reveal_strlit("br");
    reveal_strlit("cond_br");
    assert("for"@.len() == 3 && "condition"@.len() == 9 && "continue"@.len() == 8);
    assert("if"@.len() == 2 && "switch"@.len() == 6 && "yield"@.len() == 5);
    assert("while"@.len() == 5 && "break"@.len() == 5 && "func"@.len() == 4);
    assert("return"@.len() == 6 && "call"@.len() == 4);
    assert("br"@.len() == 2 && "cond_br"@.len() == 7);
    assert("scf"@[0] != "cfg"@[0]);
    assert("while"@[0] != "yield"@[0]);
    assert("while"@[0] != "break"@[0]);
    assert("break"@[0] != "yield"@[0]);
}

/// A `scf.while` starts by deciding: its condition is entered at its start with
/// the operands as its arguments, and the loop is left past the operation.
pub proof fn loops_start_by_deciding(
    context: ContextView,
    machine: MachineView,
    op: OpId,
    carried: Seq<ValueView>,
    block: BlockId,
    args: Seq<ValueId>,
)
    requires
        next_is(context, machine, op, "scf"@, "while"@),
        context.ir.op(op)->0.regions.len() >= 2,
        all_read(context, machine.env, context.ir.op(op)->0.operands, carried),
        starts(context, context.ir.op(op)->0.regions[0], block, args),
        entry(context, context.ir.op(op)->0.regions[1]) is Some,
    ensures
        match machine.stepping(context) {
            StepView::Ran(after) => {
                &&& after.frames == inside(
                    advanced(machine),
                    RoleView::Condition(
                        op,
                        context.ir.op(op)->0.regions[0],
                        context.ir.op(op)->0.regions[1],
                    ),
                    block,
                )
                &&& takes(machine.env, after.env, args, carried)
            },
            _ => false,
        },
{
    spellings();
    let o = context.ir.op(op)->0;
    let top = machine.frames.last();
    reading_is_found(context, machine.env, o.operands, carried);
    entries_start(context, o.regions[0], block, args);
    binding_takes(machine.env, args, carried);
    let going = machine.going(top.block, top.next + 1);
    assert(going.frames =~= advanced(machine));
    assert(context.control(op) == Some(
        ControlView::While(o.operands, o.regions[0], o.regions[1]),
    ));
}

/// The body of a `scf.while` that yields goes back to the condition, which is
/// entered at its start with what was yielded as its arguments.
pub proof fn bodies_go_back_to_the_condition(
    context: ContextView,
    machine: MachineView,
    op: OpId,
    owner: OpId,
    condition: RegionId,
    body: RegionId,
    yielded: Seq<ValueView>,
    block: BlockId,
    args: Seq<ValueId>,
)
    requires
        next_is(context, machine, op, "scf"@, "yield"@),
        machine.frames[machine.frames.len() - 1].role == RoleView::Body(owner, condition, body),
        all_read(context, machine.env, context.ir.op(op)->0.operands, yielded),
        starts(context, condition, block, args),
    ensures
        match machine.stepping(context) {
            StepView::Ran(after) => {
                &&& after.frames == inside(
                    machine.frames.take(machine.frames.len() - 1),
                    RoleView::Condition(owner, condition, body),
                    block,
                )
                &&& takes(machine.env, after.env, args, yielded)
            },
            _ => false,
        },
{
    let top = machine.frames.last();
    let going = machine.going(top.block, top.next + 1);
    reading_is_found(context, machine.env, context.ir.op(op)->0.operands, yielded);
    assert(context.control(op) == Some(ControlView::Yield));
    assert(going.frames.last().role == top.role);
    assert(going.leaving().frames =~= machine.frames.take(machine.frames.len() - 1));
    entries_start(context, condition, block, args);
    binding_takes(machine.env, args, yielded);
}

/// The arm of a gate that yields ends it: the results are what was
/// yielded, and control is where it was left to return to.
pub proof fn arms_give_their_gate_results(
    context: ContextView,
    machine: MachineView,
    op: OpId,
    owner: OpId,
    yielded: Seq<ValueView>,
)
    requires
        next_is(context, machine, op, "scf"@, "yield"@),
        machine.frames[machine.frames.len() - 1].role == RoleView::Arm(owner),
        all_read(context, machine.env, context.ir.op(op)->0.operands, yielded),
        context.ir.op(owner) is Some,
    ensures
        match machine.stepping(context) {
            StepView::Ran(after) => {
                &&& after.frames == machine.frames.take(machine.frames.len() - 1)
                &&& takes(machine.env, after.env, context.ir.op(owner)->0.results, yielded)
            },
            _ => false,
        },
{
    let top = machine.frames.last();
    let going = machine.going(top.block, top.next + 1);
    reading_is_found(context, machine.env, context.ir.op(op)->0.operands, yielded);
    assert(context.control(op) == Some(ControlView::Yield));
    assert(going.frames.last().role == top.role);
    assert(going.leaving().frames =~= machine.frames.take(machine.frames.len() - 1));
    binding_takes(machine.env, context.ir.op(owner)->0.results, yielded);
}

proof fn forwarding_binds(
    context: ContextView,
    env: EnvView,
    args: Seq<ValueId>,
    inputs: Seq<ValueId>,
    values: Seq<ValueView>,
    n: int,
)
    requires
        0 <= n <= args.len(),
        n <= inputs.len(),
        all_read(context, env, inputs, values),
        forall|i: int, j: int|
            0 <= i < args.len() && 0 <= j < inputs.len() ==> #[trigger] args[i]
                != #[trigger] inputs[j],
    ensures
        forwarded(context, env, args, inputs, n) == Ok::<
            EnvView,
            crate::interp::InterpErrorView,
        >(bound_to(env, args, values, n)),
    decreases n,
{
    if n > 0 {
        forwarding_binds(context, env, args, inputs, values, n - 1);
        let so_far = bound_to(env, args, values, n - 1);
        let input = inputs[n - 1];
        assert(reads(context, env, input, values[n - 1]));
        binding_takes_part(env, args, values, n - 1);
        assert(!args.contains(input)) by {
            if args.contains(input) {
                let i = choose|i: int| 0 <= i < args.len() && args[i] == input;
                assert(args[i] != inputs[n - 1]);
            }
        }
        assert(so_far.contains_key(input) <==> env.contains_key(input));
        assert(value_of(context, so_far, input) == Ok::<ValueView, crate::interp::InterpErrorView>(
            values[n - 1],
        ));
    }
}

/// Which region a `scf.if` runs: the first unless its decision is zero, then the
/// second. Which one a `scf.switch` runs: the one its decision is the number of,
/// and the last for any other number.
pub open spec fn arm_for(
    context: ContextView,
    op: OpId,
    decision: ValueView,
    region: RegionId,
) -> bool {
    let regions = context.ir.op(op)->0.regions;
    let n = match decision {
        ValueView::Int(n) => signed_value(n),
        _ => 0,
    };
    if context.identity(op) == ("scf"@, "if"@) {
        region == if n != 0 {
            regions[0]
        } else {
            regions[1]
        }
    } else {
        region == if 0 <= n && n < regions.len() {
            regions[n]
        } else {
            regions[regions.len() - 1]
        }
    }
}

/// A gate runs the region its decision picks, from its start, with the operands
/// past the decision as its arguments, and is left past the operation.
pub proof fn gates_run_the_picked_region(
    context: ContextView,
    machine: MachineView,
    op: OpId,
    decision: ValueView,
    inputs: Seq<ValueView>,
    region: RegionId,
    block: BlockId,
    args: Seq<ValueId>,
)
    requires
        next_is(context, machine, op, "scf"@, "if"@) && context.ir.op(op)->0.regions.len() >= 2
            || next_is(context, machine, op, "scf"@, "switch"@) && context.ir.op(
            op,
        )->0.regions.len() >= 1,
        all_read(
            context,
            machine.env,
            context.ir.op(op)->0.operands,
            seq![decision] + inputs,
        ),
        arm_for(context, op, decision, region),
        starts(context, region, block, args),
        forall|i: int, j: int|
            0 <= i < args.len() && 0 <= j < context.ir.op(op)->0.operands.len()
                ==> #[trigger] args[i] != #[trigger] context.ir.op(op)->0.operands[j],
    ensures
        match machine.stepping(context) {
            StepView::Ran(after) => {
                &&& after.frames == inside(advanced(machine), RoleView::Arm(op), block)
                &&& takes(machine.env, after.env, args, inputs)
            },
            _ => false,
        },
{
    spellings();
    let o = context.ir.op(op)->0;
    let all = seq![decision] + inputs;
    let top = machine.frames.last();
    let going = machine.going(top.block, top.next + 1);
    assert(going.frames =~= advanced(machine));
    let switch = context.identity(op) == ("scf"@, "switch"@);
    assert(("scf"@, "if"@).1 != ("scf"@, "switch"@).1);
    assert(context.control(op) == Some(ControlView::Gate(o.regions, switch)));
    assert(reads(context, machine.env, o.operands[0], all[0]));
    assert(value_of(context, machine.env, o.operands[0]) == Ok::<
        ValueView,
        crate::interp::InterpErrorView,
    >(decision));
    entries_start(context, region, block, args);
    let rest = o.operands.skip(1);
    assert forall|i: int| 0 <= i < rest.len() implies reads(
        context,
        machine.env,
        #[trigger] rest[i],
        inputs[i],
    ) by {
        assert(rest[i] == o.operands[i + 1]);
        assert(all[i + 1] == inputs[i]);
    }
    assert forall|i: int, j: int|
        0 <= i < args.len() && 0 <= j < rest.len() implies #[trigger] args[i]
        != #[trigger] rest[j] by {
        assert(rest[j] == o.operands[j + 1]);
    }
    forwarding_binds(
        context,
        machine.env,
        args,
        rest,
        inputs,
        paired(args.len(), rest.len()),
    );
    binding_takes(machine.env, args, inputs);
}

/// A `scf.for` counts from its first value operand up to the last but one. Where
/// the first is below, its region is entered at its start with the operands
/// before the bound, and the memory states, as its arguments, and the loop is
/// left past the operation; where it is not, they are its results.
pub proof fn counted_loops_start_below_their_bound(
    context: ContextView,
    machine: MachineView,
    op: OpId,
    limits: Seq<ValueView>,
    carried: Seq<ValueView>,
    block: BlockId,
    args: Seq<ValueId>,
    lower: int,
    upper: int,
    step: int,
)
    requires
        next_is(context, machine, op, "scf"@, "for"@),
        context.ir.op(op) is Some,
        context.ir.op(op)->0.regions.len() > 0,
        context.value_operands(op).len() >= 3,
        ({
            let values = context.value_operands(op);
            all_read(
                context,
                machine.env,
                seq![values[0], values[values.len() - 2], values[values.len() - 1]],
                limits,
            ) && all_read(
                context,
                machine.env,
                values.take(values.len() - 2) + context.dep_operands(op),
                carried,
            )
        }),
        limits[0] is Int && signed_value(limits[0]->Int_0) == lower,
        limits[1] is Int && signed_value(limits[1]->Int_0) == upper,
        limits[2] is Int && signed_value(limits[2]->Int_0) == step,
        starts(context, context.ir.op(op)->0.regions[0], block, args),
        ordinary(context, args, args.len() as int) <= carried.len(),
    ensures
        match machine.stepping(context) {
            StepView::Ran(after) => if lower < upper {
                &&& after.frames == inside(
                    advanced(machine),
                    RoleView::Counted(op, context.ir.op(op)->0.regions[0], lower, upper, step),
                    block,
                )
                &&& takes_carried(context, machine.env, after.env, args, carried)
            } else {
                &&& after.frames == advanced(machine)
                &&& takes(machine.env, after.env, context.ir.op(op)->0.results, carried)
            },
            _ => false,
        },
{
    spellings();
    let o = context.ir.op(op)->0;
    let values = context.value_operands(op);
    let bounds = seq![values[0], values[values.len() - 2], values[values.len() - 1]];
    let top = machine.frames.last();
    let going = machine.going(top.block, top.next + 1);
    assert(going.frames =~= advanced(machine));
    reading_is_found(context, machine.env, bounds, limits);
    reading_is_found(context, machine.env, context.counted_inits(op), carried);
    entries_start(context, o.regions[0], block, args);
    loops_take_carried(context, machine.env, args, carried);
    binding_takes(machine.env, o.results, carried);
    assert(context.control(op) == Some(
        ControlView::Counted(
            values[0],
            values[values.len() - 2],
            values[values.len() - 1],
            context.counted_inits(op),
            o.regions[0],
        ),
    ));
}

/// The body of a `scf.for` that yields counts on by the step. Where the count is
/// still below the bound the body is entered again with what was yielded as its
/// arguments; where it is not, what was yielded are the loop's results, and
/// control is where the loop was left to return to.
pub proof fn counted_bodies_count_on(
    context: ContextView,
    machine: MachineView,
    op: OpId,
    owner: OpId,
    body: RegionId,
    counter: int,
    upper: int,
    step: int,
    yielded: Seq<ValueView>,
    block: BlockId,
    args: Seq<ValueId>,
)
    requires
        next_is(context, machine, op, "scf"@, "yield"@),
        machine.frames[machine.frames.len() - 1].role == RoleView::Counted(
            owner,
            body,
            counter,
            upper,
            step,
        ),
        i64::MIN <= counter + step <= i64::MAX,
        all_read(context, machine.env, context.ir.op(op)->0.operands, yielded),
        context.ir.op(owner) is Some,
        starts(context, body, block, args),
        ordinary(context, args, args.len() as int) <= yielded.len(),
    ensures
        match machine.stepping(context) {
            StepView::Ran(after) => if counter + step < upper {
                &&& after.frames == inside(
                    machine.frames.take(machine.frames.len() - 1),
                    RoleView::Counted(owner, body, counter + step, upper, step),
                    block,
                )
                &&& takes_carried(context, machine.env, after.env, args, yielded)
            } else {
                &&& after.frames == machine.frames.take(machine.frames.len() - 1)
                &&& takes(machine.env, after.env, context.ir.op(owner)->0.results, yielded)
            },
            _ => false,
        },
{
    let top = machine.frames.last();
    let going = machine.going(top.block, top.next + 1);
    reading_is_found(context, machine.env, context.ir.op(op)->0.operands, yielded);
    assert(context.control(op) == Some(ControlView::Yield));
    assert(going.frames.last().role == top.role);
    assert(going.leaving().frames =~= machine.frames.take(machine.frames.len() - 1));
    entries_start(context, body, block, args);
    loops_take_carried(context, machine.env, args, yielded);
    binding_takes(machine.env, context.ir.op(owner)->0.results, yielded);
}

/// A `cfg.br` goes to the start of the block it names, in the same frame, with
/// its operands as the block's arguments.
pub proof fn branches_go_to_their_block(
    context: ContextView,
    machine: MachineView,
    op: OpId,
    dest: BlockId,
    passed: Seq<ValueView>,
)
    requires
        next_is(context, machine, op, "cfg"@, "br"@),
        context.block_ref_attr(op, "dest"@) == Some(dest),
        all_read(context, machine.env, context.ir.op(op)->0.operands, passed),
        context.ir.block(dest) is Some,
    ensures
        went_to(context, machine, dest, passed),
{
    spellings();
    reading_is_found(context, machine.env, context.ir.op(op)->0.operands, passed);
    jumps_go(context, machine, dest, context.ir.op(op)->0.operands, passed);
    assert(context.control(op) == Some(ControlView::Jump(dest, context.ir.op(op)->0.operands)));
}

/// Whether a step leads to the start of `dest` in the same frame, with `passed`
/// as the arguments of the block.
pub open spec fn went_to(
    context: ContextView,
    machine: MachineView,
    dest: BlockId,
    passed: Seq<ValueView>,
) -> bool {
    let last = machine.frames.len() - 1;
    let args = context.ir.block(dest)->0.arguments;
    match machine.stepping(context) {
        StepView::Ran(after) => {
            &&& after.frames == machine.frames.update(
                last,
                FrameView { role: machine.frames[last].role, block: dest, next: 0 },
            )
            &&& takes(
                machine.env,
                after.env,
                Seq::new(args.len(), |i: int| args[i].id),
                passed,
            )
        },
        _ => false,
    }
}

proof fn jumps_go(
    context: ContextView,
    machine: MachineView,
    dest: BlockId,
    args: Seq<ValueId>,
    passed: Seq<ValueView>,
)
    requires
        machine.frames.len() > 0,
        values_of(context, machine.env, args) == Ok::<
            Seq<ValueView>,
            crate::interp::InterpErrorView,
        >(passed),
        context.ir.block(dest) is Some,
    ensures
        ({
            let last = machine.frames.len() - 1;
            let top = machine.frames[last];
            let ids = context.ir.block(dest)->0.arguments;
            match machine.going(top.block, top.next + 1).jumping(context, dest, args) {
                StepView::Ran(after) => {
                    &&& after.frames == machine.frames.update(
                        last,
                        FrameView { role: machine.frames[last].role, block: dest, next: 0 },
                    )
                    &&& takes(
                        machine.env,
                        after.env,
                        Seq::new(ids.len(), |i: int| ids[i].id),
                        passed,
                    )
                },
                _ => false,
            }
        }),
{
    let last = machine.frames.len() - 1;
    let top = machine.frames[last];
    let b = context.ir.block(dest)->0;
    let ids = Seq::new(b.arguments.len(), |i: int| b.arguments[i].id);
    assert(b.arguments.map_values(|v: crate::ir::Value| v.id) =~= ids);
    binding_takes(machine.env, ids, passed);
    let going = machine.going(top.block, top.next + 1);
    assert(going.going(dest, 0).frames =~= machine.frames.update(
        last,
        FrameView { role: machine.frames[last].role, block: dest, next: 0 },
    ));
}

/// A `cfg.cond_br` goes to the block it names for a decision that holds unless
/// its first operand is zero, then to the other, with the operands it has for
/// that block as the block's arguments: those for the first stand after the
/// decision, those for the other after them.
pub proof fn conditional_branches_follow_their_decision(
    context: ContextView,
    machine: MachineView,
    op: OpId,
    decision: ValueView,
    dest: BlockId,
    other: BlockId,
    passed: Seq<ValueView>,
)
    requires
        next_is(context, machine, op, "cfg"@, "cond_br"@),
        context.cond_branch_wf(op),
        context.block_ref_attr(op, "true_dest"@) == Some(dest),
        context.block_ref_attr(op, "false_dest"@) == Some(other),
        reads(context, machine.env, context.ir.op(op)->0.operands[0], decision),
        ({
            let operands = context.ir.op(op)->0.operands;
            let first = 1 + context.group_size(op, 1);
            let second = first + context.group_size(op, 2);
            all_read(
                context,
                machine.env,
                if refuses(decision) {
                    operands.subrange(first as int, second as int)
                } else {
                    operands.subrange(1, first as int)
                },
                passed,
            )
        }),
        context.ir.block(dest) is Some,
        context.ir.block(other) is Some,
    ensures
        went_to(
            context,
            machine,
            if refuses(decision) {
                other
            } else {
                dest
            },
            passed,
        ),
{
    spellings();
    let args = if refuses(decision) {
        context.false_args(op)
    } else {
        context.true_args(op)
    };
    let taken = if refuses(decision) {
        other
    } else {
        dest
    };
    reading_is_found(context, machine.env, args, passed);
    jumps_go(context, machine, taken, args, passed);
    assert(value_of(context, machine.env, context.ir.op(op)->0.operands[0]) == Ok::<
        ValueView,
        crate::interp::InterpErrorView,
    >(decision));
}

/// An operation that moves no control is handed out with what its operands are,
/// and control is past it; nothing is bound yet.
pub proof fn leaves_are_handed_their_operands(
    context: ContextView,
    machine: MachineView,
    op: OpId,
    dialect: Seq<char>,
    name: Seq<char>,
    operands: Seq<ValueView>,
)
    requires
        next_is(context, machine, op, dialect, name),
        dialect != "scf"@,
        dialect != "func"@,
        dialect != "cfg"@,
        all_read(context, machine.env, context.ir.op(op)->0.operands, operands),
    ensures
        match machine.stepping(context) {
            StepView::Leaf(after, performed, values) => {
                &&& performed == op
                &&& values == operands
                &&& after.env == machine.env
                &&& after.frames == advanced(machine)
            },
            _ => false,
        },
{
    let top = machine.frames.last();
    let going = machine.going(top.block, top.next + 1);
    assert(going.frames =~= advanced(machine));
    reading_is_found(context, machine.env, context.ir.op(op)->0.operands, operands);
    assert(context.control(op) == Some(ControlView::Leaf));
}

/// The results of a leaf are bound to the values it gave; nothing else changes.
pub proof fn results_are_bound(
    context: ContextView,
    machine: MachineView,
    op: OpId,
    values: Seq<ValueView>,
)
    requires
        context.ir.op(op) is Some,
    ensures
        machine.binding(context, op, values).frames == machine.frames,
        takes(
            machine.env,
            machine.binding(context, op, values).env,
            context.ir.op(op)->0.results,
            values,
        ),
{
    binding_takes(machine.env, context.ir.op(op)->0.results, values);
}

/// A `func.call` of a function enters its body at its start, with the arguments
/// as the parameters, and is left past the operation; it is an error to pass a
/// number of arguments that is not the number of parameters.
pub proof fn calls_enter_the_function(
    context: ContextView,
    machine: MachineView,
    op: OpId,
    function: OpId,
    passed: Seq<ValueView>,
    name: Seq<char>,
    block: BlockId,
    params: Seq<ValueId>,
)
    requires
        next_is(context, machine, op, "func"@, "call"@),
        context.value_operands(op).len() > 0,
        reads(
            context,
            machine.env,
            context.value_operands(op)[0],
            ValueView::Function(function),
        ),
        all_read(context, machine.env, context.value_operands(op).skip(1), passed),
        context.ir.op(function) is Some,
        context.ir.op(function)->0.regions.len() > 0,
        context.str_attr(function, "sym_name"@) == Some(name),
        starts(context, context.ir.op(function)->0.regions[0], block, params),
    ensures
        passed.len() != params.len() ==> machine.stepping(context) is Failed,
        passed.len() == params.len() ==> match machine.stepping(context) {
            StepView::Ran(after) => {
                let new = after.frames[machine.frames.len() as int];
                &&& after.frames.len() == machine.frames.len() + 1
                &&& after.frames.take(machine.frames.len() as int) == advanced(machine)
                &&& new.block == block
                &&& new.next == 0
                &&& new.role is Function
                &&& new.role->Function_0 == function
                &&& new.role->Function_2 == Some(op)
                &&& takes(machine.env, after.env, params, passed)
            },
            _ => false,
        },
{
    spellings();
    let top = machine.frames.last();
    let going = machine.going(top.block, top.next + 1);
    assert(going.frames =~= advanced(machine));
    reading_is_found(context, machine.env, context.call_args(op), passed);
    entries_start(context, context.ir.op(function)->0.regions[0], block, params);
    binding_takes(machine.env, params, passed);
    assert(value_of(context, machine.env, context.value_operands(op)[0]) == Ok::<
        ValueView,
        crate::interp::InterpErrorView,
    >(ValueView::Function(function)));
    assert(context.control(op) == Some(
        ControlView::Call(
            context.value_operands(op)[0],
            context.call_args(op),
            context.left_state(op) is Some,
        ),
    ));
    match machine.stepping(context) {
        StepView::Ran(after) => {
            assert(after.frames.take(machine.frames.len() as int) =~= advanced(machine));
        },
        _ => {},
    }
}

/// What a `func.return` hands back: its operands, but for a memory state that
/// comes last.
pub open spec fn handed_back(
    context: ContextView,
    op: OpId,
    values: Seq<ValueView>,
) -> Seq<ValueView> {
    let operands = context.ir.op(op)->0.operands;
    if operands.len() > 0 && context.is_state(operands[operands.len() - 1]) {
        values.take(values.len() - 1)
    } else {
        values
    }
}

/// Whether a binding of `id` is among those saved.
pub open spec fn saves(saved: Seq<(ValueId, ValueView)>, id: ValueId) -> bool {
    exists|k: int| 0 <= k < saved.len() && (#[trigger] saved[k]).0 == id
}

/// A `func.return` of the function that was called first ends the run with what
/// it hands back. One of a function another called ends that function: control is
/// where the call was left to return to, and of the values the call does not
/// define and the function has no parameter for, each is bound as it was. The
/// results of the call are what was handed back, and a memory state after them
/// where the call leaves one.
pub proof fn returns_end_the_function(
    context: ContextView,
    machine: MachineView,
    op: OpId,
    function: OpId,
    saved: Seq<(ValueId, ValueView)>,
    caller: Option<OpId>,
    values: Seq<ValueView>,
)
    requires
        next_is(context, machine, op, "func"@, "return"@),
        machine.frames[machine.frames.len() - 1].role == RoleView::Function(
            function,
            saved,
            caller,
        ),
        all_read(context, machine.env, context.ir.op(op)->0.operands, values),
        caller is Some ==> context.ir.op(caller->0) is Some,
    ensures
        caller is None ==> machine.stepping(context) == StepView::Done(
            handed_back(context, op, values),
        ),
        caller is Some ==> match machine.stepping(context) {
            StepView::Ran(after) => {
                let results = context.ir.op(caller->0)->0.results;
                let given = if context.left_state(caller->0) is Some {
                    handed_back(context, op, values).push(ValueView::State)
                } else {
                    handed_back(context, op, values)
                };
                &&& after.frames == machine.frames.take(machine.frames.len() - 1)
                &&& binds(after.env, results, given)
                &&& forall|id: ValueId|
                    !results.contains(id) && !saves(saved, id) ==> (
                    #[trigger] after.env.contains_key(id) <==> machine.env.contains_key(id)) && (
                    machine.env.contains_key(id) ==> after.env[id] == machine.env[id])
            },
            _ => false,
        },
{
    spellings();
    let top = machine.frames.last();
    let going = machine.going(top.block, top.next + 1);
    let operands = context.ir.op(op)->0.operands;
    reading_is_found(context, machine.env, operands, values);
    assert(going.frames.last().role == top.role);
    assert(going.leaving().frames =~= machine.frames.take(machine.frames.len() - 1));
    assert(context.control(op) == Some(ControlView::Return));
    if values.len() > 0 {
        assert(values.drop_last() =~= values.take(values.len() - 1));
    }
    if caller is Some {
        let back = restored(machine.env, saved, saved.len() as int);
        let results = context.ir.op(caller->0)->0.results;
        let given = if context.left_state(caller->0) is Some {
            handed_back(context, op, values).push(ValueView::State)
        } else {
            handed_back(context, op, values)
        };
        binding_takes(back, results, given);
        restoring_leaves_others(machine.env, saved, saved.len() as int);
        let after = with_bound(back, results, given);
        assert forall|id: ValueId|
            !results.contains(id) && !saves(saved, id) implies (
        #[trigger] after.contains_key(id) <==> machine.env.contains_key(id)) && (
        machine.env.contains_key(id) ==> after[id] == machine.env[id]) by {
            assert(back.contains_key(id) <==> machine.env.contains_key(id));
        }
        let rest = going.leaving();
        let end = MachineView { env: after, frames: rest.frames };
        assert(machine.stepping(context) == StepView::Ran(end));
        assert(binds(end.env, results, given));
        assert(end.frames == machine.frames.take(machine.frames.len() - 1));
        assert forall|id: ValueId|
            !results.contains(id) && !saves(saved, id) implies (
        #[trigger] end.env.contains_key(id) <==> machine.env.contains_key(id)) && (
        machine.env.contains_key(id) ==> end.env[id] == machine.env[id]) by {
            assert(after.contains_key(id) <==> machine.env.contains_key(id));
        }
    }
}

proof fn restoring_leaves_others(env: EnvView, saved: Seq<(ValueId, ValueView)>, n: int)
    requires
        0 <= n <= saved.len(),
    ensures
        forall|id: ValueId|
            !saves(saved, id) ==> (#[trigger] restored(env, saved, n).contains_key(id) <==> env.contains_key(id)) && (
            env.contains_key(id) ==> restored(env, saved, n)[id] == env[id]),
    decreases n,
{
    if n > 0 {
        restoring_leaves_others(env, saved, n - 1);
        let before = restored(env, saved, n - 1);
        let after = restored(env, saved, n);
        assert forall|id: ValueId|
            !saves(saved, id) implies (#[trigger] after.contains_key(id) <==> env.contains_key(id)) && (env.contains_key(id)
            ==> after[id] == env[id]) by {
            assert(saved[n - 1].0 != id);
            assert(before.contains_key(id) <==> env.contains_key(id));
        }
    }
}

/// Whether the frames above `k` belong to gates or to conditions of loops.
pub open spec fn gated_above(frames: Seq<FrameView>, k: int) -> bool {
    forall|j: int|
        k < j < frames.len() ==> (#[trigger] frames[j]).role is Arm || frames[j].role is Condition
}

/// What `scf.break` and `scf.continue` carry: their operands, but for a scope
/// token that comes first.
pub open spec fn carried_out(
    context: ContextView,
    op: OpId,
    values: Seq<ValueView>,
) -> Seq<ValueView> {
    if context.is_token(context.ir.op(op)->0.operands[0]) {
        values.skip(1)
    } else {
        values
    }
}

proof fn exits_pass_gates(context: ContextView, machine: MachineView, flow: FlowView, k: int)
    requires
        0 <= k < machine.frames.len(),
        gated_above(machine.frames, k),
        flow is Break || flow is Continue,
    ensures
        machine.delivering(context, flow) == (MachineView {
            env: machine.env,
            frames: machine.frames.take(k + 1),
        }).delivering(context, flow),
    decreases machine.frames.len() - k,
{
    if k == machine.frames.len() - 1 {
        assert(machine.frames.take(k + 1) =~= machine.frames);
    } else {
        let rest = machine.leaving();
        let last = machine.frames.len() - 1;
        assert(machine.frames[last].role is Arm || machine.frames[last].role is Condition);
        assert(machine.delivering(context, flow) == rest.delivering(context, flow));
        assert forall|j: int| k < j < rest.frames.len() implies (
        #[trigger] rest.frames[j]).role is Arm || rest.frames[j].role is Condition by {
            assert(rest.frames[j] == machine.frames[j]);
        }
        exits_pass_gates(context, rest, flow, k);
        assert(rest.frames.take(k + 1) =~= machine.frames.take(k + 1));
    }
}

/// A `scf.break` ends the innermost loop around it, whatever gates stand between
/// the two: the loop's results are the values it carries, and control is where
/// the loop was left to return to.
pub proof fn breaks_end_the_innermost_loop(
    context: ContextView,
    machine: MachineView,
    op: OpId,
    owner: OpId,
    k: int,
    values: Seq<ValueView>,
)
    requires
        next_is(context, machine, op, "scf"@, "break"@),
        context.ir.op(op)->0.operands.len() > 0,
        all_read(context, machine.env, context.ir.op(op)->0.operands, values),
        0 <= k < machine.frames.len(),
        gated_above(machine.frames, k),
        match machine.frames[k].role {
            RoleView::Body(o, _, _) => o == owner,
            RoleView::Counted(o, _, _, _, _) => o == owner,
            _ => false,
        },
        context.ir.op(owner) is Some,
    ensures
        match machine.stepping(context) {
            StepView::Ran(after) => {
                &&& after.frames == machine.frames.take(k)
                &&& takes(
                    machine.env,
                    after.env,
                    context.ir.op(owner)->0.results,
                    carried_out(context, op, values),
                )
            },
            _ => false,
        },
{
    spellings();
    let top = machine.frames.last();
    let going = machine.going(top.block, top.next + 1);
    let carried = carried_out(context, op, values);
    reading_is_found(context, machine.env, context.ir.op(op)->0.operands, values);
    assert(context.control(op) == Some(ControlView::Exit(true)));
    assert(gated_above(going.frames, k)) by {
        assert forall|j: int| k < j < going.frames.len() implies (
        #[trigger] going.frames[j]).role is Arm || going.frames[j].role is Condition by {
            assert(going.frames[j].role == machine.frames[j].role);
        }
    }
    exits_pass_gates(context, going, FlowView::Break(carried), k);
    let there = MachineView { env: machine.env, frames: going.frames.take(k + 1) };
    assert(there.frames.last().role == machine.frames[k].role);
    assert(there.leaving().frames =~= machine.frames.take(k));
    binding_takes(machine.env, context.ir.op(owner)->0.results, carried);
}

/// A `scf.continue` goes on with the innermost loop around it, whatever gates
/// stand between the two, just as if the loop's body had yielded the values it
/// carries: a `scf.while` goes back to its condition, a `scf.for` counts on.
pub proof fn continues_go_on_with_the_innermost_loop(
    context: ContextView,
    machine: MachineView,
    op: OpId,
    k: int,
    values: Seq<ValueView>,
    block: BlockId,
    args: Seq<ValueId>,
)
    requires
        next_is(context, machine, op, "scf"@, "continue"@),
        context.ir.op(op)->0.operands.len() > 0,
        all_read(context, machine.env, context.ir.op(op)->0.operands, values),
        0 <= k < machine.frames.len(),
        gated_above(machine.frames, k),
        match machine.frames[k].role {
            RoleView::Body(owner, condition, _) => starts(context, condition, block, args),
            RoleView::Counted(owner, body, counter, upper, step) => context.ir.op(owner) is Some
                && i64::MIN <= counter + step <= i64::MAX && starts(context, body, block, args)
                && ordinary(context, args, args.len() as int) <= carried_out(
                context,
                op,
                values,
            ).len(),
            _ => false,
        },
    ensures
        match (machine.stepping(context), machine.frames[k].role) {
            (StepView::Ran(after), RoleView::Body(owner, condition, body)) => {
                &&& after.frames == inside(
                    machine.frames.take(k),
                    RoleView::Condition(owner, condition, body),
                    block,
                )
                &&& takes(machine.env, after.env, args, carried_out(context, op, values))
            },
            (
                StepView::Ran(after),
                RoleView::Counted(owner, body, counter, upper, step),
            ) => if counter + step < upper {
                &&& after.frames == inside(
                    machine.frames.take(k),
                    RoleView::Counted(owner, body, counter + step, upper, step),
                    block,
                )
                &&& takes_carried(
                    context,
                    machine.env,
                    after.env,
                    args,
                    carried_out(context, op, values),
                )
            } else {
                &&& after.frames == machine.frames.take(k)
                &&& takes(
                    machine.env,
                    after.env,
                    context.ir.op(owner)->0.results,
                    carried_out(context, op, values),
                )
            },
            _ => false,
        },
{
    spellings();
    let top = machine.frames.last();
    let going = machine.going(top.block, top.next + 1);
    let carried = carried_out(context, op, values);
    reading_is_found(context, machine.env, context.ir.op(op)->0.operands, values);
    assert(context.control(op) == Some(ControlView::Exit(false)));
    assert(gated_above(going.frames, k)) by {
        assert forall|j: int| k < j < going.frames.len() implies (
        #[trigger] going.frames[j]).role is Arm || going.frames[j].role is Condition by {
            assert(going.frames[j].role == machine.frames[j].role);
        }
    }
    exits_pass_gates(context, going, FlowView::Continue(carried), k);
    let there = MachineView { env: machine.env, frames: going.frames.take(k + 1) };
    assert(there.frames.last().role == machine.frames[k].role);
    assert(there.leaving().frames =~= machine.frames.take(k));
    match machine.frames[k].role {
        RoleView::Body(owner, condition, body) => {
            entries_start(context, condition, block, args);
            binding_takes(machine.env, args, carried);
        },
        RoleView::Counted(owner, body, counter, upper, step) => {
            entries_start(context, body, block, args);
            loops_take_carried(context, machine.env, args, carried);
            binding_takes(machine.env, context.ir.op(owner)->0.results, carried);
        },
        _ => {},
    }
}

} // verus!

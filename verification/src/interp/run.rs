//! Running a function: the machine, and the leaves it waits for.
use vstd::prelude::*;
use crate::access::str_attr;
use crate::access::uint_attr;
use crate::context::Context;
use crate::context::ContextView;
use crate::context::OpHandle;
use crate::dialects::fp::bits::ClassifyOp;
use crate::ids::OpId;
use crate::ids::TypeId;
use crate::ids::ValueId;
use crate::interp::bits::known_format;
use crate::interp::bits::width_of_float;
use crate::interp::dispatch::eval_leaf;
use crate::interp::dispatch::leaf_of;
use crate::interp::dispatch::Leaf;
use crate::interp::leaf::accessible;
use crate::interp::leaf::narrow;
use crate::interp::machine::Machine;
use crate::interp::machine::MachineView;
use crate::interp::machine::Step;
use crate::interp::machine::StepView;
use crate::interp::memory::MEMORY_BASE;
use crate::interp::memory::Memory;
use crate::interp::memory::MemoryView;
use crate::interp::semantic::eval_semantic;
use crate::interp::semantic::pointer_width;
use crate::interp::semantic::SemValue;
use crate::interp::value_views;
use crate::interp::InterpErrorView;
use crate::interp::Value;
use crate::interp::ValueView;
use crate::layout::DataLayout;
use crate::ty::Type;

verus! {

fn format_known(value: &Value) -> (r: bool)
    ensures
        r == known_format(value@),
{
    match value {
        Value::Float(x) => width_of_float(x).is_some(),
        _ => true,
    }
}

fn is_narrow(value: &Value) -> (r: bool)
    ensures
        r == narrow(value@),
{
    match value {
        Value::Int(n) => n.width <= 64,
        _ => true,
    }
}

fn is_accessible(context: &Context, ty: TypeId) -> (r: bool)
    requires
        context.inv(),
        ty.0 < context@.types.len(),
    ensures
        r == accessible(context@.types[ty.0 as int]),
{
    match context.get_type_data(ty) {
        Type::Integer(t) => t.width <= 64,
        Type::Float(t) => t.bit_width() <= 64,
        _ => true,
    }
}

/// Whether each of `values` is live.
pub fn all_typed(context: &Context, values: &Vec<ValueId>) -> (r: bool)
    requires
        context.inv(),
        context@.sound(),
    ensures
        r == context@.values_typed(values@),
{
    let mut i: usize = 0;
    while i < values.len()
        invariant
            context.inv(),
            context@.sound(),
            i <= values.len(),
            forall|k: int|
                0 <= k < i ==> context@.ir.value(#[trigger] values@[k]) is Some
                    && context@.value_sound(values@[k]),
        decreases values.len() - i,
    {
        assert(context@.value_sound(values@[i as int]));
        if !context.has_value(values[i]) {
            assert(context@.ir.value(values@[i as int]) is None);
            return false;
        }
        i += 1;
    }
    true
}

/// Whether the first of `values`, each of them live, is of a type that memory
/// holds.
fn first_accessible(context: &Context, values: &Vec<ValueId>) -> (r: bool)
    requires
        context.inv(),
        context@.sound(),
    ensures
        r == (values@.len() > 0 && context@.values_typed(values@) && accessible(
            context@.types[context@.type_of(values@[0]).0 as int],
        )),
{
    if values.len() == 0 || !all_typed(context, values) {
        return false;
    }
    assert(context@.value_sound(values@[0]));
    is_accessible(context, context.get_value(values[0]).ty)
}

/// Whether the leaf `op` has what its evaluation reads.
pub fn can_evaluate(context: &Context, op: OpHandle, operands: &Vec<Value>, memory: &Memory) -> (r:
    bool)
    requires
        context.inv(),
        context@.sound(),
        context@.ir.op(op.id) is Some,
        memory.inv(),
    ensures
        r == context@.leaf_evaluable(op, value_views(operands@), memory@),
{
    proof {
        assert(context@.op_sound(op.id));
        let views = value_views(operands@);
        if operands@.len() > 0 {
            assert(views[0] == operands@[0]@);
        }
        if operands@.len() > 1 {
            assert(views[1] == operands@[1]@);
        }
    }
    let count: usize = operands.len();
    match leaf_of(context, op) {
        None | Some(Leaf::MakeTuple) | Some(Leaf::EntryState) => true,
        Some(Leaf::Constant) => context.results_of(op.id).len() > 0 && all_typed(
            context,
            context.results_of(op.id),
        ),
        Some(Leaf::TupleGet) => count > 0 && uint_attr(context, op.id, "index").is_some(),
        Some(Leaf::Alloca) => match (
            uint_attr(context, op.id, "size"),
            uint_attr(context, op.id, "align"),
        ) {
            (Some(size), Some(align)) => memory.has_room(size, align),
            _ => false,
        },
        Some(Leaf::Load) => count > 0 && first_accessible(context, context.results_of(op.id)),
        Some(Leaf::Store) => count > 1 && is_narrow(&operands[0]) && first_accessible(
            context,
            context.operands_of(op.id),
        ),
        Some(Leaf::Memcpy) | Some(Leaf::Memset) => count > 2,
        Some(Leaf::Neg) | Some(Leaf::Abs) | Some(Leaf::SignBit) => count > 0 && format_known(
            &operands[0],
        ),
        Some(Leaf::CopySign) => count > 1 && format_known(&operands[0]) && format_known(
            &operands[1],
        ),
        Some(Leaf::Classify) => count > 0 && format_known(&operands[0]) && str_attr(
            context,
            op.id,
            "class",
        ).is_some() && ClassifyOp(op).verify_impl(context).is_ok(),
        Some(Leaf::Fence) => count > 0,
    }
}

/// A run: the machine, the memory it works on, and where its last step led.
pub struct Run {
    pub machine: Machine,
    pub memory: Memory,
    pub step: Step,
}

/// What a [`Run`] holds: the memory, and where the last step led with the machine
/// it left.
pub ghost struct RunView {
    pub memory: MemoryView,
    pub step: StepView,
}

impl View for Run {
    type V = RunView;

    open spec fn view(&self) -> RunView {
        RunView {
            memory: self.memory@,
            step: match self.step {
                Step::Ran => StepView::Ran(self.machine@),
                Step::Leaf(op, operands) => StepView::Leaf(
                    self.machine@,
                    op,
                    value_views(operands@),
                ),
                Step::Done(values) => StepView::Done(value_views(values@)),
                Step::Failed(e) => StepView::Failed(e@),
                Step::Stuck => StepView::Stuck,
            },
        }
    }
}

impl RunView {
    /// The operation the run waits for, which does not evaluate itself: its
    /// semantic expression has to.
    pub open spec fn awaited(self, context: ContextView) -> Option<OpId> {
        match self.step {
            StepView::Leaf(_, op, _) => if context.ir.op(op) is Some && context.leaf(
                context.handle(op),
            ) is None {
                Some(op)
            } else {
                None
            },
            _ => None,
        }
    }

    /// After the results of the operation waited for came out as `outcome` says.
    pub open spec fn resumed(
        self,
        context: ContextView,
        memory: MemoryView,
        outcome: Result<Seq<ValueView>, InterpErrorView>,
    ) -> RunView {
        RunView {
            memory,
            step: match outcome {
                Ok(values) => StepView::Ran(
                    self.step->Leaf_0.binding(context, self.step->Leaf_1, values),
                ),
                Err(e) => StepView::Failed(e),
            },
        }
    }

    /// One turn: the next operation, or the evaluation of the leaf waited for. A
    /// run that has ended, or that waits for a semantic expression, stays.
    pub open spec fn turned(self, context: ContextView) -> RunView {
        match self.step {
            StepView::Ran(machine) => RunView { step: machine.stepping(context), ..self },
            StepView::Leaf(_, op, operands) => if context.ir.op(op) is None {
                RunView { step: StepView::Stuck, ..self }
            } else if self.awaited(context) is Some {
                self
            } else if !context.leaf_evaluable(context.handle(op), operands, self.memory) {
                RunView { step: StepView::Stuck, ..self }
            } else {
                let outcome = context.leaf_outcome(
                    context.handle(op),
                    operands,
                    self.memory,
                    0,
                    None,
                );
                self.resumed(context, outcome.0, outcome.1)
            },
            _ => self,
        }
    }

    /// After `fuel` turns.
    pub open spec fn after(self, context: ContextView, fuel: nat) -> RunView
        decreases fuel,
    {
        if fuel == 0 {
            self
        } else {
            self.turned(context).after(context, (fuel - 1) as nat)
        }
    }

    /// Whether another turn changes nothing: the run has ended, or waits.
    pub open spec fn rests(self, context: ContextView) -> bool {
        match self.step {
            StepView::Ran(_) => false,
            StepView::Leaf(_, _, _) => self.awaited(context) is Some,
            _ => true,
        }
    }
}

impl ContextView {
    /// The handle that names `op` now.
    pub open spec fn handle(self, op: OpId) -> OpHandle {
        OpHandle { id: op, generation: self.ir.ops.generation(op.0, self.epoch) }
    }

    /// The run of `function` on `args` before its first turn.
    pub open spec fn started(self, function: OpId, args: Seq<ValueView>) -> RunView {
        RunView {
            memory: MemoryView { cells: Seq::empty(), next: MEMORY_BASE as nat },
            step: (MachineView { env: Map::empty(), frames: Seq::empty() }).calling(
                self,
                function,
                args,
                None,
            ),
        }
    }
}

impl Run {
    /// The run of `function` on `args`, before its first turn.
    pub fn start(context: &Context, function: OpId, args: &Vec<Value>) -> (r: Self)
        requires
            context.inv(),
        ensures
            r.memory.inv(),
            r@ == context@.started(function, value_views(args@)),
    {
        let (machine, step) = Machine::start(context, function, args);
        Run { machine, memory: Memory::default(), step }
    }

    /// Takes one turn, and says whether another could change anything.
    pub fn turn(&mut self, context: &Context) -> (going: bool)
        requires
            context.inv(),
            context@.sound(),
            old(self).memory.inv(),
        ensures
            final(self).memory.inv(),
            final(self)@ == old(self)@.turned(context@),
            going == !old(self)@.rests(context@),
    {
        match &self.step {
            Step::Ran => {
                self.step = self.machine.step(context);
                true
            },
            Step::Leaf(op, operands) => {
                let op = *op;
                if !context.has_operation(op) {
                    self.step = Step::Stuck;
                    return true;
                }
                let handle = context.get_op(op);
                assert(context@.op_sound(op));
                if leaf_of(context, handle).is_none() {
                    return false;
                }
                if !can_evaluate(context, handle, operands, &self.memory) {
                    self.step = Step::Stuck;
                    return true;
                }
                match eval_leaf(context, handle, operands, &mut self.memory, 0, None) {
                    Ok(values) => {
                        self.machine.bind_results(context, op, &values);
                        self.step = Step::Ran;
                    },
                    Err(e) => {
                        self.step = Step::Failed(e);
                    },
                }
                true
            },
            _ => false,
        }
    }

    /// Takes up to `fuel` turns: fewer where the run ends, or waits for what a
    /// semantic expression comes to.
    pub fn run(&mut self, context: &Context, fuel: u64)
        requires
            context.inv(),
            context@.sound(),
            old(self).memory.inv(),
        ensures
            final(self).memory.inv(),
            final(self)@ == old(self)@.after(context@, fuel as nat),
    {
        let ghost begun = self@;
        let mut left: u64 = fuel;
        while left > 0
            invariant
                context.inv(),
                context@.sound(),
                self.memory.inv(),
                left <= fuel,
                begun == old(self)@,
                begun.after(context@, fuel as nat) == self@.after(context@, left as nat),
            decreases left,
        {
            let ghost here = self@;
            if !self.turn(context) {
                proof {
                    resting_runs_stay(context@, here, left as nat);
                }
                return;
            }
            left = left - 1;
        }
    }

    /// Hands over what the semantic expression of the operation waited for comes
    /// to, `None` where it has none. `scoped` is the layout declared around it, which
    /// says how wide a pointer is.
    pub fn resume(
        &mut self,
        context: &Context,
        scoped: Option<DataLayout>,
        result: Option<SemValue>,
    )
        requires
            context.inv(),
            old(self)@.awaited(context@) is Some,
            context@.semantic_fits(old(self)@.awaited(context@)->0, result),
        ensures
            final(self).memory == old(self).memory,
            final(self)@ == old(self)@.resumed(
                context@,
                old(self)@.memory,
                context@.semantic_outcome(
                    old(self)@.awaited(context@)->0,
                    old(self)@.step->Leaf_2,
                    context@.pointer_bits(old(self)@.awaited(context@)->0, scoped),
                    result,
                ),
            ),
    {
        if let Step::Leaf(op, operands) = &self.step {
            let op = *op;
            let handle = context.get_op(op);
            let width: u32 = pointer_width(context, op, scoped);
            match eval_semantic(context, handle, operands, width, result) {
                Ok(values) => {
                    self.machine.bind_results(context, op, &values);
                    self.step = Step::Ran;
                },
                Err(e) => {
                    self.step = Step::Failed(e);
                },
            }
        }
    }
}

/// A run that rests stays as it is, however many turns it takes.
pub proof fn resting_runs_stay(context: ContextView, run: RunView, fuel: nat)
    requires
        run.rests(context),
    ensures
        run.turned(context) == run,
        run.after(context, fuel) == run,
    decreases fuel,
{
    if fuel > 0 {
        resting_runs_stay(context, run, (fuel - 1) as nat);
    }
}

/// Turns add up: stopping after some of them and going on changes nothing.
pub proof fn turns_add_up(context: ContextView, run: RunView, a: nat, b: nat)
    ensures
        run.after(context, a + b) == run.after(context, a).after(context, b),
    decreases a,
{
    if a > 0 {
        turns_add_up(context, run.turned(context), (a - 1) as nat, b);
    }
}

/// A run returns one thing: with enough turns to end, more of them end it the
/// same way.
pub proof fn runs_end_once(context: ContextView, run: RunView, a: nat, b: nat)
    requires
        run.after(context, a).rests(context),
        a <= b,
    ensures
        run.after(context, b) == run.after(context, a),
{
    turns_add_up(context, run, a, (b - a) as nat);
    resting_runs_stay(context, run.after(context, a), (b - a) as nat);
}

} // verus!

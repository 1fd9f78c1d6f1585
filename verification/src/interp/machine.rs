//! The machine that runs functions: it follows control one operation at a time,
//! and asks for the evaluation of each leaf it comes to.
use vstd::prelude::*;
use crate::access::str_attr;
use crate::context::Context;
use crate::context::ContextView;
use crate::ids::BlockId;
use crate::ids::OpId;
use crate::ids::RegionId;
use crate::ids::ValueId;
use crate::interp::control::control_of;
use crate::interp::control::is_token;
use crate::interp::control::Control;
use crate::interp::control::ControlView;
use crate::interp::env::bindings_of;
use crate::interp::env::pair_views;
use crate::interp::env::restored;
use crate::interp::env::restoring_brings_back;
use crate::interp::env::value_of;
use crate::interp::env::values_of;
use crate::interp::env::with_bound;
use crate::interp::env::Env;
use crate::interp::env::EnvView;
use crate::interp::message;
use crate::interp::signed_value;
use crate::interp::value_views;
use crate::interp::InterpError;
use crate::interp::InterpErrorView;
use crate::interp::Value;
use crate::interp::ValueView;
use crate::text::cat5;
use crate::text::cat6;
use crate::text::decimal;
use crate::text::decimal_string;

verus! {

/// Why a region runs.
pub enum Role {
    /// The body of a function, called by `caller` unless the run began with it.
    /// `saved` is what its parameters were bound to before.
    Function { function: OpId, saved: Vec<(ValueId, Value)>, caller: Option<OpId> },
    /// The picked region of a gate.
    Arm { owner: OpId },
    /// The body of a counted loop.
    Counted { owner: OpId, body: RegionId, counter: i64, upper: i64, step: i64 },
    /// The region in which a loop decides.
    Condition { owner: OpId, condition: RegionId, body: RegionId },
    /// The region in which a loop that decided to go on works.
    Body { owner: OpId, condition: RegionId, body: RegionId },
}

/// What a [`Role`] says.
pub ghost enum RoleView {
    Function(OpId, Seq<(ValueId, ValueView)>, Option<OpId>),
    Arm(OpId),
    Counted(OpId, RegionId, int, int, int),
    Condition(OpId, RegionId, RegionId),
    Body(OpId, RegionId, RegionId),
}

impl View for Role {
    type V = RoleView;

    open spec fn view(&self) -> RoleView {
        match *self {
            Role::Function { function, saved, caller } => RoleView::Function(
                function,
                pair_views(saved@),
                caller,
            ),
            Role::Arm { owner } => RoleView::Arm(owner),
            Role::Counted { owner, body, counter, upper, step } => RoleView::Counted(
                owner,
                body,
                counter as int,
                upper as int,
                step as int,
            ),
            Role::Condition { owner, condition, body } => RoleView::Condition(
                owner,
                condition,
                body,
            ),
            Role::Body { owner, condition, body } => RoleView::Body(owner, condition, body),
        }
    }
}

/// A region being run: why, and the block and operation it has come to.
pub struct Frame {
    pub role: Role,
    pub block: BlockId,
    pub next: usize,
}

/// What a [`Frame`] says.
pub ghost struct FrameView {
    pub role: RoleView,
    pub block: BlockId,
    pub next: nat,
}

impl View for Frame {
    type V = FrameView;

    open spec fn view(&self) -> FrameView {
        FrameView { role: self.role@, block: self.block, next: self.next as nat }
    }
}

/// What each of `frames` says.
pub open spec fn frame_views(frames: Seq<Frame>) -> Seq<FrameView> {
    frames.map_values(|f: Frame| f@)
}

/// How a finished region hands control to what encloses it.
pub enum Flow {
    /// Values for the results of the enclosing operation.
    Values(Vec<Value>),
    Break(Vec<Value>),
    Continue(Vec<Value>),
    Return(Vec<Value>),
}

/// What a [`Flow`] says.
pub ghost enum FlowView {
    Values(Seq<ValueView>),
    Break(Seq<ValueView>),
    Continue(Seq<ValueView>),
    Return(Seq<ValueView>),
}

impl View for Flow {
    type V = FlowView;

    open spec fn view(&self) -> FlowView {
        match *self {
            Flow::Values(values) => FlowView::Values(value_views(values@)),
            Flow::Break(values) => FlowView::Break(value_views(values@)),
            Flow::Continue(values) => FlowView::Continue(value_views(values@)),
            Flow::Return(values) => FlowView::Return(value_views(values@)),
        }
    }
}

impl FlowView {
    /// What kind of flow it is.
    pub open spec fn kind(self) -> Seq<char> {
        match self {
            FlowView::Values(_) => "Values"@,
            FlowView::Break(_) => "Break"@,
            FlowView::Continue(_) => "Continue"@,
            FlowView::Return(_) => "Return"@,
        }
    }
}

/// The machine: what values are bound to, and the regions being run, innermost
/// last.
pub struct Machine {
    pub env: Env,
    pub frames: Vec<Frame>,
}

/// What a [`Machine`] holds.
pub ghost struct MachineView {
    pub env: EnvView,
    pub frames: Seq<FrameView>,
}

impl View for Machine {
    type V = MachineView;

    open spec fn view(&self) -> MachineView {
        MachineView { env: self.env@, frames: frame_views(self.frames@) }
    }
}

/// Where one step leads.
pub enum Step {
    /// The machine has moved on.
    Ran,
    /// The machine waits for the values of the results of this operation, which
    /// reads these operands.
    Leaf(OpId, Vec<Value>),
    /// The function the run began with returned these.
    Done(Vec<Value>),
    Failed(InterpError),
    /// An operation lacks what running it takes.
    Stuck,
}

/// Where one step leads, with the machine it leaves while the run goes on.
pub ghost enum StepView {
    Ran(MachineView),
    Leaf(MachineView, OpId, Seq<ValueView>),
    Done(Seq<ValueView>),
    Failed(InterpErrorView),
    Stuck,
}

/// Whether a step that left `machine` and gave `r` is what `expected` says. A run
/// that ended leaves a machine that is of no more use.
pub open spec fn leads(r: Step, machine: MachineView, expected: StepView) -> bool {
    match expected {
        StepView::Ran(m) => r is Ran && machine == m,
        StepView::Leaf(m, op, operands) => r is Leaf && machine == m && r->Leaf_0 == op
            && value_views(r->Leaf_1@) == operands,
        StepView::Done(values) => r is Done && value_views(r->Done_0@) == values,
        StepView::Failed(e) => r is Failed && r->Failed_0@ == e,
        StepView::Stuck => r is Stuck,
    }
}

/// The number a value stands for where one decides: zero for what is no integer.
pub open spec fn number(value: ValueView) -> int {
    match value {
        ValueView::Int(n) => signed_value(n),
        _ => 0,
    }
}

fn number_of(value: &Value) -> (n: i64)
    ensures
        n == number(value@),
{
    match value.to_i64() {
        Some(n) => n,
        None => 0,
    }
}

/// The block a region starts in, and the arguments of that block.
pub open spec fn entry(context: ContextView, region: RegionId) -> Option<(BlockId, Seq<ValueId>)> {
    let blocks = context.blocks_of(region);
    if blocks.len() == 0 {
        None
    } else {
        match arguments(context, blocks[0]) {
            Some(args) => Some((blocks[0], args)),
            None => None,
        }
    }
}

/// The arguments of a live block.
pub open spec fn arguments(context: ContextView, block: BlockId) -> Option<Seq<ValueId>> {
    match context.ir.block(block) {
        Some(b) => Some(b.arguments.map_values(|v: crate::ir::Value| v.id)),
        None => None,
    }
}

fn arguments_of(context: &Context, block: BlockId) -> (r: Option<Vec<ValueId>>)
    requires
        context.inv(),
    ensures
        match r {
            Some(args) => arguments(context@, block) == Some(args@),
            None => arguments(context@, block) is None,
        },
{
    if !context.has_block(block) {
        return None;
    }
    let values = context.get_block(block).arguments(context);
    let mut r: Vec<ValueId> = Vec::new();
    let mut i: usize = 0;
    while i < values.len()
        invariant
            i <= values.len(),
            r.len() == i,
            forall|k: int| 0 <= k < i ==> r@[k] == values@[k].id,
        decreases values.len() - i,
    {
        r.push(values[i].id);
        i += 1;
    }
    assert(r@ =~= values@.map_values(|v: crate::ir::Value| v.id));
    Some(r)
}

fn entry_of(context: &Context, region: RegionId) -> (r: Option<(BlockId, Vec<ValueId>)>)
    requires
        context.inv(),
    ensures
        match r {
            Some((block, args)) => entry(context@, region) == Some((block, args@)),
            None => entry(context@, region) is None,
        },
{
    let blocks = context.region_block_ids(region);
    if blocks.len() == 0 {
        return None;
    }
    match arguments_of(context, blocks[0]) {
        Some(args) => Some((blocks[0], args)),
        None => None,
    }
}

/// How many of the first `n` of `args` carry a value.
pub open spec fn carriers(context: ContextView, args: Seq<ValueId>, n: int) -> nat
    decreases n,
{
    if n <= 0 {
        0
    } else {
        carriers(context, args, n - 1) + if context.is_token(args[n - 1]) {
            0nat
        } else {
            1nat
        }
    }
}

/// What the first `n` arguments of a loop body take: a scope token takes no
/// value, and the others take the carried ones in order. `None` where too few are
/// carried.
pub open spec fn loop_values(
    context: ContextView,
    args: Seq<ValueId>,
    carried: Seq<ValueView>,
    n: int,
) -> Option<Seq<ValueView>>
    decreases n,
{
    if n <= 0 {
        Some(Seq::empty())
    } else {
        match loop_values(context, args, carried, n - 1) {
            Some(values) => if context.is_token(args[n - 1]) {
                Some(values.push(ValueView::Token))
            } else if carriers(context, args, n - 1) < carried.len() {
                Some(values.push(carried[carriers(context, args, n - 1) as int]))
            } else {
                None
            },
            None => None,
        }
    }
}

proof fn too_few_stay_too_few(
    context: ContextView,
    args: Seq<ValueId>,
    carried: Seq<ValueView>,
    i: int,
    n: int,
)
    requires
        i <= n,
        loop_values(context, args, carried, i) is None,
    ensures
        loop_values(context, args, carried, n) is None,
    decreases n - i,
{
    if i < n {
        too_few_stay_too_few(context, args, carried, i, n - 1);
    }
}

fn take_carried(context: &Context, args: &Vec<ValueId>, carried: &Vec<Value>) -> (r: Option<
    Vec<Value>,
>)
    requires
        context.inv(),
    ensures
        match r {
            Some(values) => loop_values(
                context@,
                args@,
                value_views(carried@),
                args@.len() as int,
            ) == Some(value_views(values@)),
            None => loop_values(
                context@,
                args@,
                value_views(carried@),
                args@.len() as int,
            ) is None,
        },
{
    let ghost views = value_views(carried@);
    let mut r: Vec<Value> = Vec::new();
    let mut used: usize = 0;
    let mut i: usize = 0;
    assert(value_views(r@) =~= Seq::<ValueView>::empty());
    while i < args.len()
        invariant
            context.inv(),
            i <= args.len(),
            views == value_views(carried@),
            used <= i,
            used == carriers(context@, args@, i as int),
            loop_values(context@, args@, views, i as int) == Some(value_views(r@)),
        decreases args.len() - i,
    {
        let ghost seen = value_views(r@);
        if is_token(context, args[i]) {
            r.push(Value::Token);
            assert(value_views(r@) =~= seen.push(ValueView::Token));
        } else if used < carried.len() {
            assert(views[used as int] == carried@[used as int]@);
            r.push(carried[used].copy());
            assert(value_views(r@) =~= seen.push(views[used as int]));
            used += 1;
        } else {
            proof {
                too_few_stay_too_few(context@, args@, views, i + 1, args@.len() as int);
            }
            return None;
        }
        i += 1;
    }
    Some(r)
}

impl MachineView {
    /// With other bindings.
    pub open spec fn with_env(self, env: EnvView) -> Self {
        MachineView { env, ..self }
    }

    /// With a region started in `block`.
    pub open spec fn entering(self, role: RoleView, block: BlockId, env: EnvView) -> Self {
        MachineView { env, frames: self.frames.push(FrameView { role, block, next: 0 }) }
    }

    /// With the innermost region gone.
    pub open spec fn leaving(self) -> Self {
        MachineView { frames: self.frames.drop_last(), ..self }
    }

    /// With the innermost region at operation `next` of `block`.
    pub open spec fn going(self, block: BlockId, next: nat) -> Self {
        let top = self.frames.last();
        MachineView {
            frames: self.frames.drop_last().push(FrameView { role: top.role, block, next }),
            ..self
        }
    }

    /// With the results of `op` bound to `values`.
    pub open spec fn binding(self, context: ContextView, op: OpId, values: Seq<ValueView>) -> Self {
        match context.ir.op(op) {
            Some(o) => self.with_env(with_bound(self.env, o.results, values)),
            None => self,
        }
    }

    /// With the body of a loop started on the values carried.
    pub open spec fn looping(
        self,
        context: ContextView,
        role: RoleView,
        body: RegionId,
        carried: Seq<ValueView>,
    ) -> StepView {
        match entry(context, body) {
            Some((block, args)) => match loop_values(context, args, carried, args.len() as int) {
                Some(values) => StepView::Ran(
                    self.entering(role, block, with_bound(self.env, args, values)),
                ),
                None => StepView::Stuck,
            },
            None => StepView::Stuck,
        }
    }

    /// With the region in which a loop decides started on the values carried.
    pub open spec fn deciding(
        self,
        context: ContextView,
        owner: OpId,
        condition: RegionId,
        body: RegionId,
        carried: Seq<ValueView>,
    ) -> StepView {
        match entry(context, condition) {
            Some((block, args)) => StepView::Ran(
                self.entering(
                    RoleView::Condition(owner, condition, body),
                    block,
                    with_bound(self.env, args, carried),
                ),
            ),
            None => StepView::Stuck,
        }
    }

    /// With `function` called.
    pub open spec fn calling(
        self,
        context: ContextView,
        function: OpId,
        args: Seq<ValueView>,
        caller: Option<OpId>,
    ) -> StepView {
        match context.ir.op(function) {
            Some(o) => if o.regions.len() == 0 {
                StepView::Stuck
            } else {
                match (entry(context, o.regions[0]), context.str_attr(function, "sym_name"@)) {
                    (Some((block, params)), Some(name)) => if params.len() != args.len() {
                        StepView::Failed(
                            InterpErrorView::Message(
                                "@"@ + name + " takes "@ + decimal(params.len()) + " arguments, got "@
                                    + decimal(args.len()),
                            ),
                        )
                    } else {
                        StepView::Ran(
                            self.entering(
                                RoleView::Function(
                                    function,
                                    bindings_of(self.env, params),
                                    caller,
                                ),
                                block,
                                with_bound(self.env, params, args),
                            ),
                        )
                    },
                    _ => StepView::Stuck,
                }
            },
            None => StepView::Stuck,
        }
    }

    /// With `flow` handed out of the innermost region, to the first region around
    /// it that takes it.
    pub open spec fn delivering(self, context: ContextView, flow: FlowView) -> StepView
        decreases self.frames.len(),
    {
        if self.frames.len() == 0 {
            StepView::Stuck
        } else {
            let rest = self.leaving();
            match self.frames.last().role {
                RoleView::Function(function, saved, caller) => match flow {
                    FlowView::Return(values) => match caller {
                        None => StepView::Done(values),
                        Some(call) => {
                            let back = rest.with_env(
                                restored(rest.env, saved, saved.len() as int),
                            );
                            StepView::Ran(
                                back.binding(
                                    context,
                                    call,
                                    if context.ir.op(call) is Some && context.left_state(
                                        call,
                                    ) is Some {
                                        values.push(ValueView::State)
                                    } else {
                                        values
                                    },
                                ),
                            )
                        },
                    },
                    _ => match context.str_attr(function, "sym_name"@) {
                        Some(name) => StepView::Failed(
                            InterpErrorView::Message(
                                "@"@ + name + " ended without func.return ("@ + flow.kind() + ")"@,
                            ),
                        ),
                        None => StepView::Stuck,
                    },
                },
                RoleView::Arm(owner) => match flow {
                    FlowView::Values(values) => StepView::Ran(rest.binding(context, owner, values)),
                    _ => rest.delivering(context, flow),
                },
                RoleView::Counted(owner, body, counter, upper, step) => match flow {
                    FlowView::Values(values) | FlowView::Continue(values) => if counter + step
                        < i64::MIN || counter + step > i64::MAX {
                        StepView::Stuck
                    } else if counter + step < upper {
                        rest.looping(
                            context,
                            RoleView::Counted(owner, body, counter + step, upper, step),
                            body,
                            values,
                        )
                    } else {
                        StepView::Ran(rest.binding(context, owner, values))
                    },
                    FlowView::Break(values) => StepView::Ran(rest.binding(context, owner, values)),
                    FlowView::Return(_) => rest.delivering(context, flow),
                },
                RoleView::Condition(owner, condition, body) => match flow {
                    FlowView::Values(values) => if values.len() == 0 {
                        StepView::Stuck
                    } else if number(values[0]) == 0 {
                        StepView::Ran(rest.binding(context, owner, values.skip(1)))
                    } else {
                        rest.looping(
                            context,
                            RoleView::Body(owner, condition, body),
                            body,
                            values.skip(1),
                        )
                    },
                    _ => rest.delivering(context, flow),
                },
                RoleView::Body(owner, condition, body) => match flow {
                    FlowView::Values(values) | FlowView::Continue(values) => rest.deciding(
                        context,
                        owner,
                        condition,
                        body,
                        values,
                    ),
                    FlowView::Break(values) => StepView::Ran(rest.binding(context, owner, values)),
                    FlowView::Return(_) => rest.delivering(context, flow),
                },
            }
        }
    }
}

impl Machine {
    fn enter(&mut self, role: Role, block: BlockId)
        ensures
            final(self)@ == old(self)@.entering(role@, block, old(self)@.env),
    {
        self.frames.push(Frame { role, block, next: 0 });
        assert(frame_views(self.frames@) =~= old(self)@.frames.push(
            FrameView { role: role@, block, next: 0 },
        ));
    }

    fn go(&mut self, block: BlockId, next: usize)
        requires
            old(self)@.frames.len() > 0,
        ensures
            final(self)@ == old(self)@.going(block, next as nat),
    {
        let ghost before = self@.frames;
        let frame = self.frames.pop().unwrap();
        assert(frame@ == before.last());
        self.frames.push(Frame { role: frame.role, block, next });
        assert(frame_views(self.frames@) =~= before.drop_last().push(
            FrameView { role: before.last().role, block, next: next as nat },
        ));
    }

    /// Binds the results of `op` to `values`: what a leaf it waited for gave.
    pub fn bind_results(&mut self, context: &Context, op: OpId, values: &Vec<Value>)
        requires
            context.inv(),
        ensures
            final(self)@ == old(self)@.binding(context@, op, value_views(values@)),
    {
        if context.has_operation(op) {
            self.env.bind(context.results_of(op), values);
        }
    }

    fn enter_loop_body(
        &mut self,
        context: &Context,
        role: Role,
        body: RegionId,
        carried: &Vec<Value>,
    ) -> (r: Step)
        requires
            context.inv(),
        ensures
            leads(
                r,
                final(self)@,
                old(self)@.looping(context@, role@, body, value_views(carried@)),
            ),
    {
        match entry_of(context, body) {
            Some((block, args)) => match take_carried(context, &args, carried) {
                Some(values) => {
                    self.env.bind(&args, &values);
                    self.enter(role, block);
                    Step::Ran
                },
                None => Step::Stuck,
            },
            None => Step::Stuck,
        }
    }

    fn enter_condition(
        &mut self,
        context: &Context,
        owner: OpId,
        condition: RegionId,
        body: RegionId,
        carried: &Vec<Value>,
    ) -> (r: Step)
        requires
            context.inv(),
        ensures
            leads(
                r,
                final(self)@,
                old(self)@.deciding(context@, owner, condition, body, value_views(carried@)),
            ),
    {
        match entry_of(context, condition) {
            Some((block, args)) => {
                self.env.bind(&args, carried);
                self.enter(Role::Condition { owner, condition, body }, block);
                Step::Ran
            },
            None => Step::Stuck,
        }
    }

    fn call_function(
        &mut self,
        context: &Context,
        function: OpId,
        args: &Vec<Value>,
        caller: Option<OpId>,
    ) -> (r: Step)
        requires
            context.inv(),
        ensures
            leads(
                r,
                final(self)@,
                old(self)@.calling(context@, function, value_views(args@), caller),
            ),
    {
        if !context.has_operation(function) {
            return Step::Stuck;
        }
        let regions = context.regions_of(function);
        if regions.len() == 0 {
            return Step::Stuck;
        }
        let (block, params) = match entry_of(context, regions[0]) {
            Some(found) => found,
            None => {
                return Step::Stuck;
            },
        };
        let name = match str_attr(context, function, "sym_name") {
            Some(name) => name,
            None => {
                return Step::Stuck;
            },
        };
        if params.len() != args.len() {
            let text = cat6(
                "@",
                name.as_str(),
                " takes ",
                decimal_string(params.len() as u64).as_str(),
                " arguments, got ",
                decimal_string(args.len() as u64).as_str(),
            );
            return Step::Failed(message(text.as_str()));
        }
        let saved = self.env.bindings_of(&params);
        self.env.bind(&params, args);
        self.enter(Role::Function { function, saved, caller }, block);
        Step::Ran
    }

    /// The machine that runs `function` on `args`, and where starting it leads.
    pub fn start(context: &Context, function: OpId, args: &Vec<Value>) -> (r: (Self, Step))
        requires
            context.inv(),
        ensures
            leads(
                r.1,
                r.0@,
                (MachineView {
                    env: Map::empty(),
                    frames: Seq::empty(),
                }).calling(context@, function, value_views(args@), None),
            ),
    {
        let mut machine = Machine { env: Env::new(), frames: Vec::new() };
        assert(machine@.frames =~= Seq::<FrameView>::empty());
        let step = machine.call_function(context, function, args, None);
        (machine, step)
    }

    fn deliver(&mut self, context: &Context, flow: Flow) -> (r: Step)
        requires
            context.inv(),
            context@.sound(),
        ensures
            leads(r, final(self)@, old(self)@.delivering(context@, flow@)),
        decreases old(self)@.frames.len(),
    {
        let ghost before = self@;
        let frame = match self.frames.pop() {
            Some(frame) => frame,
            None => {
                return Step::Stuck;
            },
        };
        proof {
            assert(frame@ == before.frames.last());
            assert(self@.frames =~= before.frames.drop_last());
            assert(self@ == before.leaving());
        }
        match frame.role {
            Role::Function { function, saved, caller } => match flow {
                Flow::Return(values) => match caller {
                    None => Step::Done(values),
                    Some(call) => {
                        self.env.restore(&saved);
                        let mut values = values;
                        if context.has_operation(call) {
                            assert(context@.op_sound(call));
                            let ghost returned = value_views(values@);
                            if crate::dialects::ptr::produced_state(
                                context,
                                &context.get_op(call),
                            ).is_some() {
                                values.push(Value::State);
                                assert(value_views(values@) =~= returned.push(ValueView::State));
                            }
                        }
                        self.bind_results(context, call, &values);
                        Step::Ran
                    },
                },
                _ => {
                    let name = match str_attr(context, function, "sym_name") {
                        Some(name) => name,
                        None => {
                            return Step::Stuck;
                        },
                    };
                    let kind: &str = match flow {
                        Flow::Values(_) => "Values",
                        Flow::Break(_) => "Break",
                        Flow::Continue(_) => "Continue",
                        Flow::Return(_) => "Return",
                    };
                    let text = cat5(
                        "@",
                        name.as_str(),
                        " ended without func.return (",
                        kind,
                        ")",
                    );
                    Step::Failed(message(text.as_str()))
                },
            },
            Role::Arm { owner } => match flow {
                Flow::Values(values) => {
                    self.bind_results(context, owner, &values);
                    Step::Ran
                },
                _ => self.deliver(context, flow),
            },
            Role::Counted { owner, body, counter, upper, step } => match flow {
                Flow::Values(values) | Flow::Continue(values) => {
                    let next: i64 = match counter.checked_add(step) {
                        Some(next) => next,
                        None => {
                            return Step::Stuck;
                        },
                    };
                    if next < upper {
                        self.enter_loop_body(
                            context,
                            Role::Counted { owner, body, counter: next, upper, step },
                            body,
                            &values,
                        )
                    } else {
                        self.bind_results(context, owner, &values);
                        Step::Ran
                    }
                },
                Flow::Break(values) => {
                    self.bind_results(context, owner, &values);
                    Step::Ran
                },
                Flow::Return(_) => self.deliver(context, flow),
            },
            Role::Condition { owner, condition, body } => match flow {
                Flow::Values(values) => {
                    if values.len() == 0 {
                        return Step::Stuck;
                    }
                    let mut rest = values;
                    let ghost views = value_views(rest@);
                    let decision = rest.remove(0);
                    proof {
                        assert(decision@ == views[0]);
                        assert(value_views(rest@) =~= views.skip(1));
                    }
                    if number_of(&decision) == 0 {
                        self.bind_results(context, owner, &rest);
                        Step::Ran
                    } else {
                        self.enter_loop_body(
                            context,
                            Role::Body { owner, condition, body },
                            body,
                            &rest,
                        )
                    }
                },
                _ => self.deliver(context, flow),
            },
            Role::Body { owner, condition, body } => match flow {
                Flow::Values(values) | Flow::Continue(values) => self.enter_condition(
                    context,
                    owner,
                    condition,
                    body,
                    &values,
                ),
                Flow::Break(values) => {
                    self.bind_results(context, owner, &values);
                    Step::Ran
                },
                Flow::Return(_) => self.deliver(context, flow),
            },
        }
    }
}

/// The region of a gate that its number picks: of two, the first unless the
/// number is zero; of a switch, the one the number is the index of, and the last
/// for any other number.
pub open spec fn picked(arms: Seq<RegionId>, switch: bool, n: int) -> RegionId {
    if switch {
        if 0 <= n < arms.len() {
            arms[n]
        } else {
            arms.last()
        }
    } else if n != 0 {
        arms[0]
    } else {
        arms[1]
    }
}

/// The bindings with the first `n` of `args` bound to what the first `n` of
/// `inputs` are, one after the other.
pub open spec fn forwarded(
    context: ContextView,
    env: EnvView,
    args: Seq<ValueId>,
    inputs: Seq<ValueId>,
    n: int,
) -> Result<EnvView, InterpErrorView>
    decreases n,
{
    if n <= 0 {
        Ok(env)
    } else {
        match forwarded(context, env, args, inputs, n - 1) {
            Ok(so_far) => match value_of(context, so_far, inputs[n - 1]) {
                Ok(value) => Ok(so_far.insert(args[n - 1], value)),
                Err(e) => Err(e),
            },
            Err(e) => Err(e),
        }
    }
}

proof fn failure_stays(
    context: ContextView,
    env: EnvView,
    args: Seq<ValueId>,
    inputs: Seq<ValueId>,
    i: int,
    n: int,
)
    requires
        i <= n,
        forwarded(context, env, args, inputs, i) is Err,
    ensures
        forwarded(context, env, args, inputs, n) == forwarded(context, env, args, inputs, i),
    decreases n - i,
{
    if i < n {
        failure_stays(context, env, args, inputs, i, n - 1);
    }
}

impl MachineView {
    /// With a gate entered: the picked region runs on what the operands past the
    /// first are.
    pub open spec fn gating(
        self,
        context: ContextView,
        op: OpId,
        arms: Seq<RegionId>,
        switch: bool,
    ) -> StepView {
        let operands = context.ir.op(op)->0.operands;
        match value_of(context, self.env, operands[0]) {
            Ok(decision) => match entry(context, picked(arms, switch, number(decision))) {
                Some((block, args)) => {
                    let inputs = operands.skip(1);
                    match forwarded(
                        context,
                        self.env,
                        args,
                        inputs,
                        crate::interp::env::paired(args.len(), inputs.len()),
                    ) {
                        Ok(env) => StepView::Ran(self.entering(RoleView::Arm(op), block, env)),
                        Err(e) => StepView::Failed(e),
                    }
                },
                None => StepView::Stuck,
            },
            Err(e) => StepView::Failed(e),
        }
    }

    /// With a counted loop entered, or passed over where there is nothing to
    /// count.
    pub open spec fn counting(
        self,
        context: ContextView,
        op: OpId,
        bounds: Seq<ValueId>,
        inits: Seq<ValueId>,
        body: RegionId,
    ) -> StepView {
        match values_of(context, self.env, bounds) {
            Ok(b) => if entry(context, body) is None {
                StepView::Stuck
            } else {
                match values_of(context, self.env, inits) {
                    Ok(carried) => {
                        let (lower, upper, step) = (number(b[0]), number(b[1]), number(b[2]));
                        if lower < upper {
                            self.looping(
                                context,
                                RoleView::Counted(op, body, lower, upper, step),
                                body,
                                carried,
                            )
                        } else {
                            StepView::Ran(self.binding(context, op, carried))
                        }
                    },
                    Err(e) => StepView::Failed(e),
                }
            },
            Err(e) => StepView::Failed(e),
        }
    }

    /// With control in `dest`, whose arguments take what `args` are.
    pub open spec fn jumping(
        self,
        context: ContextView,
        dest: BlockId,
        args: Seq<ValueId>,
    ) -> StepView {
        match values_of(context, self.env, args) {
            Ok(values) => match arguments(context, dest) {
                Some(ids) => StepView::Ran(
                    self.going(dest, 0).with_env(with_bound(self.env, ids, values)),
                ),
                None => StepView::Stuck,
            },
            Err(e) => StepView::Failed(e),
        }
    }

    /// With `op` performed, control being past it.
    pub open spec fn performing(
        self,
        context: ContextView,
        op: OpId,
        control: ControlView,
    ) -> StepView {
        let operands = context.ir.op(op)->0.operands;
        match control {
            ControlView::Yield => match values_of(context, self.env, operands) {
                Ok(values) => self.delivering(context, FlowView::Values(values)),
                Err(e) => StepView::Failed(e),
            },
            ControlView::Return => match values_of(context, self.env, operands) {
                Ok(values) => self.delivering(
                    context,
                    FlowView::Return(
                        if operands.len() > 0 && context.is_state(operands.last()) {
                            values.drop_last()
                        } else {
                            values
                        },
                    ),
                ),
                Err(e) => StepView::Failed(e),
            },
            ControlView::Exit(breaks) => match values_of(context, self.env, operands) {
                Ok(values) => {
                    let carried = if context.is_token(operands[0]) {
                        values.skip(1)
                    } else {
                        values
                    };
                    self.delivering(
                        context,
                        if breaks {
                            FlowView::Break(carried)
                        } else {
                            FlowView::Continue(carried)
                        },
                    )
                },
                Err(e) => StepView::Failed(e),
            },
            ControlView::Gate(arms, switch) => self.gating(context, op, arms, switch),
            ControlView::Counted(lower, upper, step, inits, body) => self.counting(
                context,
                op,
                seq![lower, upper, step],
                inits,
                body,
            ),
            ControlView::While(inits, condition, body) => if entry(context, condition) is None
                || entry(context, body) is None {
                StepView::Stuck
            } else {
                match values_of(context, self.env, inits) {
                    Ok(carried) => self.deciding(context, op, condition, body, carried),
                    Err(e) => StepView::Failed(e),
                }
            },
            ControlView::Call(callee, args, _) => match value_of(context, self.env, callee) {
                Ok(ValueView::Function(function)) => match values_of(context, self.env, args) {
                    Ok(values) => self.calling(context, function, values, Some(op)),
                    Err(e) => StepView::Failed(e),
                },
                Ok(_) => StepView::Failed(
                    InterpErrorView::Unsupported("a call whose callee is not a definition"@),
                ),
                Err(e) => StepView::Failed(e),
            },
            ControlView::Jump(dest, args) => self.jumping(context, dest, args),
            ControlView::Fork(decider, dest, args, other, other_args) => match value_of(
                context,
                self.env,
                decider,
            ) {
                Ok(decision) => if number(decision) != 0 {
                    self.jumping(context, dest, args)
                } else {
                    self.jumping(context, other, other_args)
                },
                Err(e) => StepView::Failed(e),
            },
            ControlView::Leaf => match values_of(context, self.env, operands) {
                Ok(values) => StepView::Leaf(self, op, values),
                Err(e) => StepView::Failed(e),
            },
        }
    }

    /// Where the next operation leads.
    pub open spec fn stepping(self, context: ContextView) -> StepView {
        if self.frames.len() == 0 {
            StepView::Stuck
        } else {
            let top = self.frames.last();
            match context.ir.block(top.block) {
                Some(block) => if top.next >= block.operations.len() {
                    StepView::Failed(
                        InterpErrorView::Message("block fell through without a terminator"@),
                    )
                } else {
                    let op = block.operations[top.next as int];
                    match context.control(op) {
                        Some(control) => self.going(top.block, top.next + 1).performing(
                            context,
                            op,
                            control,
                        ),
                        None => StepView::Stuck,
                    }
                },
                None => StepView::Stuck,
            }
        }
    }
}

impl Machine {
    fn exec_gamma_arm(
        &mut self,
        context: &Context,
        op: OpId,
        arms: &Vec<RegionId>,
        switch: bool,
    ) -> (r: Step)
        requires
            context.inv(),
            context@.sound(),
            context@.ir.op(op) is Some,
            context@.ir.op(op)->0.operands.len() > 0,
            arms@.len() >= 2 || switch && arms@.len() > 0,
        ensures
            leads(r, final(self)@, old(self)@.gating(context@, op, arms@, switch)),
    {
        let operands = context.operands_of(op);
        let decision = match self.env.value_of(context, operands[0]) {
            Ok(decision) => decision,
            Err(e) => {
                return Step::Failed(e);
            },
        };
        let n: i64 = number_of(&decision);
        let region: RegionId = if switch {
            if 0 <= n && (n as u64) < arms.len() as u64 {
                arms[n as usize]
            } else {
                arms[arms.len() - 1]
            }
        } else if n != 0 {
            arms[0]
        } else {
            arms[1]
        };
        let (block, args) = match entry_of(context, region) {
            Some(found) => found,
            None => {
                return Step::Stuck;
            },
        };
        let ghost inputs = operands@.skip(1);
        let count: usize = if args.len() < operands.len() - 1 {
            args.len()
        } else {
            operands.len() - 1
        };
        let ghost start = self@;
        let mut i: usize = 0;
        while i < count
            invariant
                context.inv(),
                context@.sound(),
                i <= count,
                count <= args.len(),
                count < operands.len(),
                inputs == operands@.skip(1),
                self@.frames == start.frames,
                old(self)@.gating(context@, op, arms@, switch) == match forwarded(
                    context@,
                    start.env,
                    args@,
                    inputs,
                    count as int,
                ) {
                    Ok(env) => StepView::Ran(start.entering(RoleView::Arm(op), block, env)),
                    Err(e) => StepView::Failed(e),
                },
                forwarded(context@, start.env, args@, inputs, i as int) == Ok::<
                    EnvView,
                    InterpErrorView,
                >(self@.env),
            decreases count - i,
        {
            assert(inputs[i as int] == operands@[i + 1]);
            match self.env.value_of(context, operands[i + 1]) {
                Ok(value) => {
                    self.env.put(args[i], value);
                },
                Err(e) => {
                    proof {
                        failure_stays(context@, start.env, args@, inputs, i + 1, count as int);
                    }
                    return Step::Failed(e);
                },
            }
            i += 1;
        }
        self.enter(Role::Arm { owner: op }, block);
        Step::Ran
    }

    fn exec_for(
        &mut self,
        context: &Context,
        op: OpId,
        bounds: &Vec<ValueId>,
        inits: &Vec<ValueId>,
        body: RegionId,
    ) -> (r: Step)
        requires
            context.inv(),
            context@.sound(),
            bounds@.len() == 3,
        ensures
            leads(r, final(self)@, old(self)@.counting(context@, op, bounds@, inits@, body)),
    {
        let limits = match self.env.values_of(context, bounds) {
            Ok(limits) => limits,
            Err(e) => {
                return Step::Failed(e);
            },
        };
        proof {
            as_many_values(context@, self@.env, bounds@);
            assert(value_views(limits@).len() == 3);
            assert(value_views(limits@)[0] == limits@[0]@);
            assert(value_views(limits@)[1] == limits@[1]@);
            assert(value_views(limits@)[2] == limits@[2]@);
        }
        if entry_of(context, body).is_none() {
            return Step::Stuck;
        }
        let carried = match self.env.values_of(context, inits) {
            Ok(carried) => carried,
            Err(e) => {
                return Step::Failed(e);
            },
        };
        let counter: i64 = number_of(&limits[0]);
        let upper: i64 = number_of(&limits[1]);
        let step: i64 = number_of(&limits[2]);
        if counter < upper {
            self.enter_loop_body(
                context,
                Role::Counted { owner: op, body, counter, upper, step },
                body,
                &carried,
            )
        } else {
            self.bind_results(context, op, &carried);
            Step::Ran
        }
    }

    fn exec_while(
        &mut self,
        context: &Context,
        op: OpId,
        inits: &Vec<ValueId>,
        condition: RegionId,
        body: RegionId,
    ) -> (r: Step)
        requires
            context.inv(),
            context@.sound(),
        ensures
            leads(
                r,
                final(self)@,
                old(self)@.performing(
                    context@,
                    op,
                    ControlView::While(inits@, condition, body),
                ),
            ),
    {
        if entry_of(context, condition).is_none() || entry_of(context, body).is_none() {
            return Step::Stuck;
        }
        match self.env.values_of(context, inits) {
            Ok(carried) => self.enter_condition(context, op, condition, body, &carried),
            Err(e) => Step::Failed(e),
        }
    }

    fn exec_call(
        &mut self,
        context: &Context,
        op: OpId,
        callee: ValueId,
        args: &Vec<ValueId>,
        state: bool,
    ) -> (r: Step)
        requires
            context.inv(),
            context@.sound(),
        ensures
            leads(
                r,
                final(self)@,
                old(self)@.performing(context@, op, ControlView::Call(callee, args@, state)),
            ),
    {
        let called = match self.env.value_of(context, callee) {
            Ok(called) => called,
            Err(e) => {
                return Step::Failed(e);
            },
        };
        match called {
            Value::Function(function) => match self.env.values_of(context, args) {
                Ok(values) => self.call_function(context, function, &values, Some(op)),
                Err(e) => Step::Failed(e),
            },
            _ => Step::Failed(
                InterpError::Unsupported("a call whose callee is not a definition".to_owned()),
            ),
        }
    }

    fn exec_branch(&mut self, context: &Context, dest: BlockId, args: &Vec<ValueId>) -> (r: Step)
        requires
            context.inv(),
            context@.sound(),
            old(self)@.frames.len() > 0,
        ensures
            leads(r, final(self)@, old(self)@.jumping(context@, dest, args@)),
    {
        let values = match self.env.values_of(context, args) {
            Ok(values) => values,
            Err(e) => {
                return Step::Failed(e);
            },
        };
        match arguments_of(context, dest) {
            Some(ids) => {
                self.env.bind(&ids, &values);
                self.go(dest, 0);
                Step::Ran
            },
            None => Step::Stuck,
        }
    }

    fn exec_exit(&mut self, context: &Context, op: OpId, breaks: bool) -> (r: Step)
        requires
            context.inv(),
            context@.sound(),
            context@.ir.op(op) is Some,
            context@.ir.op(op)->0.operands.len() > 0,
        ensures
            leads(
                r,
                final(self)@,
                old(self)@.performing(context@, op, ControlView::Exit(breaks)),
            ),
    {
        let operands = context.operands_of(op);
        let mut carried = match self.env.values_of(context, operands) {
            Ok(values) => values,
            Err(e) => {
                return Step::Failed(e);
            },
        };
        if is_token(context, operands[0]) {
            let ghost views = value_views(carried@);
            proof {
                as_many_values(context@, self@.env, operands@);
                assert(views.len() == carried@.len());
            }
            let _ = carried.remove(0);
            assert(value_views(carried@) =~= views.skip(1));
        }
        self.deliver(
            context,
            if breaks {
                Flow::Break(carried)
            } else {
                Flow::Continue(carried)
            },
        )
    }

    fn exec_return(&mut self, context: &Context, op: OpId) -> (r: Step)
        requires
            context.inv(),
            context@.sound(),
            context@.ir.op(op) is Some,
        ensures
            leads(r, final(self)@, old(self)@.performing(context@, op, ControlView::Return)),
    {
        let operands = context.operands_of(op);
        let mut values = match self.env.values_of(context, operands) {
            Ok(values) => values,
            Err(e) => {
                return Step::Failed(e);
            },
        };
        // A threaded state names the memory that flows out of the function; it is
        // no part of what it returns.
        if operands.len() > 0 && context.is_state(operands[operands.len() - 1]) {
            let ghost views = value_views(values@);
            proof {
                as_many_values(context@, self@.env, operands@);
                assert(views.len() == values@.len());
            }
            let _ = values.pop();
            assert(value_views(values@) =~= views.drop_last());
        }
        self.deliver(context, Flow::Return(values))
    }

    /// Performs one operation, control being past it.
    pub fn exec_control(&mut self, context: &Context, op: OpId, control: &Control) -> (r: Step)
        requires
            context.inv(),
            context@.sound(),
            context@.ir.op(op) is Some,
            context@.control(op) == Some(control@),
            old(self)@.frames.len() > 0,
        ensures
            leads(r, final(self)@, old(self)@.performing(context@, op, control@)),
    {
        match control {
            Control::Yield => match self.env.values_of(context, context.operands_of(op)) {
                Ok(values) => self.deliver(context, Flow::Values(values)),
                Err(e) => Step::Failed(e),
            },
            Control::Return => self.exec_return(context, op),
            Control::Exit { breaks } => self.exec_exit(context, op, *breaks),
            Control::Gate { arms, switch } => self.exec_gamma_arm(context, op, arms, *switch),
            Control::Counted { lower, upper, step, inits, body } => {
                let mut bounds: Vec<ValueId> = Vec::new();
                bounds.push(*lower);
                bounds.push(*upper);
                bounds.push(*step);
                assert(bounds@ =~= seq![*lower, *upper, *step]);
                self.exec_for(context, op, &bounds, inits, *body)
            },
            Control::While { inits, condition, body } => self.exec_while(
                context,
                op,
                inits,
                *condition,
                *body,
            ),
            Control::Call { callee, args, state } => self.exec_call(
                context,
                op,
                *callee,
                args,
                *state,
            ),
            Control::Jump { dest, args } => self.exec_branch(context, *dest, args),
            Control::Fork { decider, dest, args, other, other_args } => {
                let decision = match self.env.value_of(context, *decider) {
                    Ok(decision) => decision,
                    Err(e) => {
                        return Step::Failed(e);
                    },
                };
                if number_of(&decision) != 0 {
                    self.exec_branch(context, *dest, args)
                } else {
                    self.exec_branch(context, *other, other_args)
                }
            },
            Control::Leaf => match self.env.values_of(context, context.operands_of(op)) {
                Ok(values) => Step::Leaf(op, values),
                Err(e) => Step::Failed(e),
            },
        }
    }

    /// Performs the next operation. A leaf is handed out with what its operands
    /// are: the machine goes on once [`Machine::bind_results`] has taken what
    /// evaluating it gave.
    pub fn step(&mut self, context: &Context) -> (r: Step)
        requires
            context.inv(),
            context@.sound(),
        ensures
            leads(r, final(self)@, old(self)@.stepping(context@)),
    {
        let depth: usize = self.frames.len();
        if depth == 0 {
            return Step::Stuck;
        }
        assert(self@.frames.last() == self.frames@[depth - 1]@);
        let block: BlockId = self.frames[depth - 1].block;
        let next: usize = self.frames[depth - 1].next;
        if !context.has_block(block) {
            return Step::Stuck;
        }
        let ops = context.get_block(block).op_ids(context);
        if next >= ops.len() {
            return Step::Failed(message("block fell through without a terminator"));
        }
        let op: OpId = ops[next];
        proof {
            assert(context@.block_sound(block));
            assert(context@.op_sound(op));
        }
        match control_of(context, op) {
            Some(control) => {
                self.go(block, next + 1);
                self.exec_control(context, op, &control)
            },
            None => Step::Stuck,
        }
    }
}

proof fn as_many_values(context: ContextView, env: EnvView, ids: Seq<ValueId>)
    requires
        values_of(context, env, ids) is Ok,
    ensures
        values_of(context, env, ids)->Ok_0.len() == ids.len(),
    decreases ids.len(),
{
    if ids.len() > 0 {
        as_many_values(context, env, ids.drop_last());
    }
}

/// A call leaves what its caller bound to the parameters of the function as it
/// was, however the function binds them on the way, unless the call itself
/// defines them.
pub proof fn calls_leave_the_callers_bindings(
    context: ContextView,
    caller: EnvView,
    inside: MachineView,
    function: OpId,
    call: OpId,
    params: Seq<ValueId>,
    returned: Seq<ValueView>,
    param: ValueId,
)
    requires
        inside.frames.len() > 0,
        inside.frames.last().role == RoleView::Function(
            function,
            bindings_of(caller, params),
            Some(call),
        ),
        params.contains(param),
        caller.contains_key(param),
        context.ir.op(call) is Some,
        !context.ir.op(call)->0.results.contains(param),
    ensures
        match inside.delivering(context, FlowView::Return(returned)) {
            StepView::Ran(after) => after.env.contains_key(param) && after.env[param]
                == caller[param],
            _ => false,
        },
{
    let saved = bindings_of(caller, params);
    restoring_brings_back(caller, inside.env, params, param);
    let back = restored(inside.env, saved, saved.len() as int);
    let results = context.ir.op(call)->0.results;
    let values = if context.left_state(call) is Some {
        returned.push(ValueView::State)
    } else {
        returned
    };
    others_stay_bound(
        back,
        results,
        values,
        crate::interp::env::paired(results.len(), values.len()),
        param,
    );
}

proof fn others_stay_bound(
    env: EnvView,
    ids: Seq<ValueId>,
    values: Seq<ValueView>,
    n: int,
    id: ValueId,
)
    requires
        n <= ids.len(),
        !ids.contains(id),
        env.contains_key(id),
    ensures
        crate::interp::env::bound_to(env, ids, values, n).contains_key(id),
        crate::interp::env::bound_to(env, ids, values, n)[id] == env[id],
    decreases n,
{
    if n > 0 {
        others_stay_bound(env, ids, values, n - 1, id);
        assert(ids[n - 1] != id);
    }
}

/// A return leaves every gate and loop on its way to the function it ends.
pub proof fn returns_leave_everything_inside(
    context: ContextView,
    machine: MachineView,
    returned: Seq<ValueView>,
)
    requires
        machine.frames.len() > 0,
        !(machine.frames.last().role is Function),
    ensures
        machine.delivering(context, FlowView::Return(returned)) == machine.leaving().delivering(
            context,
            FlowView::Return(returned),
        ),
{
}

/// A counted loop with nothing to count gives what it was to carry.
pub proof fn empty_counts_give_the_inits(
    context: ContextView,
    machine: MachineView,
    op: OpId,
    bounds: Seq<ValueId>,
    inits: Seq<ValueId>,
    body: RegionId,
    limits: Seq<ValueView>,
    carried: Seq<ValueView>,
)
    requires
        values_of(context, machine.env, bounds) == Ok::<Seq<ValueView>, InterpErrorView>(limits),
        values_of(context, machine.env, inits) == Ok::<Seq<ValueView>, InterpErrorView>(carried),
        entry(context, body) is Some,
        number(limits[0]) >= number(limits[1]),
    ensures
        machine.counting(context, op, bounds, inits, body) == StepView::Ran(
            machine.binding(context, op, carried),
        ),
{
}

} // verus!

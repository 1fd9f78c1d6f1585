//! What an operation asks of the machine that runs it.
use vstd::prelude::*;
use crate::access::block_ref_attr;
use crate::context::regions::size_of_item;
use crate::context::regions::sizes_of;
use crate::context::Context;
use crate::context::ContextView;
use crate::context::OpHandle;
use crate::dialects::builtin::control::operand_slice;
use crate::dialects::ptr::produced_state;
use crate::ids::BlockId;
use crate::ids::OpId;
use crate::ids::RegionId;
use crate::ids::ValueId;
use crate::ir::copy_list;
use crate::ty::Type;
use crate::ty::TypeView;

verus! {

/// What an operation does to control: everything but a leaf moves it.
pub enum Control {
    /// Ends a region with values for what encloses it.
    Yield,
    /// Ends a function.
    Return,
    /// Leaves the innermost loop, or goes on with its next iteration.
    Exit { breaks: bool },
    /// Runs one of its regions, picked by its first operand.
    Gate { arms: Vec<RegionId>, switch: bool },
    /// Runs its region once per count.
    Counted {
        lower: ValueId,
        upper: ValueId,
        step: ValueId,
        inits: Vec<ValueId>,
        body: RegionId,
    },
    /// Runs a region that decides, then one that works, while it decides to.
    While { inits: Vec<ValueId>, condition: RegionId, body: RegionId },
    Call { callee: ValueId, args: Vec<ValueId>, state: bool },
    Jump { dest: BlockId, args: Vec<ValueId> },
    Fork {
        decider: ValueId,
        dest: BlockId,
        args: Vec<ValueId>,
        other: BlockId,
        other_args: Vec<ValueId>,
    },
    Leaf,
}

/// What a [`Control`] says.
pub ghost enum ControlView {
    Yield,
    Return,
    Exit(bool),
    Gate(Seq<RegionId>, bool),
    Counted(ValueId, ValueId, ValueId, Seq<ValueId>, RegionId),
    While(Seq<ValueId>, RegionId, RegionId),
    Call(ValueId, Seq<ValueId>, bool),
    Jump(BlockId, Seq<ValueId>),
    Fork(ValueId, BlockId, Seq<ValueId>, BlockId, Seq<ValueId>),
    Leaf,
}

impl View for Control {
    type V = ControlView;

    open spec fn view(&self) -> ControlView {
        match *self {
            Control::Yield => ControlView::Yield,
            Control::Return => ControlView::Return,
            Control::Exit { breaks } => ControlView::Exit(breaks),
            Control::Gate { arms, switch } => ControlView::Gate(arms@, switch),
            Control::Counted { lower, upper, step, inits, body } => ControlView::Counted(
                lower,
                upper,
                step,
                inits@,
                body,
            ),
            Control::While { inits, condition, body } => ControlView::While(inits@, condition, body),
            Control::Call { callee, args, state } => ControlView::Call(callee, args@, state),
            Control::Jump { dest, args } => ControlView::Jump(dest, args@),
            Control::Fork { decider, dest, args, other, other_args } => ControlView::Fork(
                decider,
                dest,
                args@,
                other,
                other_args@,
            ),
            Control::Leaf => ControlView::Leaf,
        }
    }
}

impl ContextView {
    /// Whether `id` is a live scope token.
    pub open spec fn is_token(self, id: ValueId) -> bool {
        match self.ir.value(id) {
            Some(entry) => entry.value.ty.0 < self.types.len() && self.types[entry.value.ty.0 as int]
                == TypeView::Token,
            None => false,
        }
    }

    /// What the values in a loop's ports are on its first iteration: the
    /// counter's start and the inits, then the states threaded through it.
    pub open spec fn counted_inits(self, op: OpId) -> Seq<ValueId> {
        let values = self.value_operands(op);
        values.take(values.len() - 2) + self.dep_operands(op)
    }

    /// What the readable operation `op` does to control, or `None` where it does
    /// not have what that takes.
    pub open spec fn control(self, op: OpId) -> Option<ControlView> {
        let o = self.ir.op(op)->0;
        let values = self.value_operands(op);
        if self.is_op(op, "scf"@, "yield"@) || self.is_op(op, "scf"@, "condition"@) {
            Some(ControlView::Yield)
        } else if self.is_op(op, "func"@, "return"@) {
            Some(ControlView::Return)
        } else if self.is_op(op, "scf"@, "break"@) || self.is_op(op, "scf"@, "continue"@) {
            if o.operands.len() > 0 {
                Some(ControlView::Exit(self.is_op(op, "scf"@, "break"@)))
            } else {
                None
            }
        } else if self.is_op(op, "scf"@, "if"@) {
            if o.operands.len() > 0 && o.regions.len() >= 2 {
                Some(ControlView::Gate(o.regions, false))
            } else {
                None
            }
        } else if self.is_op(op, "scf"@, "switch"@) {
            if o.operands.len() > 0 && o.regions.len() > 0 {
                Some(ControlView::Gate(o.regions, true))
            } else {
                None
            }
        } else if self.is_op(op, "scf"@, "for"@) {
            if values.len() >= 3 && o.regions.len() > 0 {
                Some(
                    ControlView::Counted(
                        values[0],
                        values[values.len() - 2],
                        values[values.len() - 1],
                        self.counted_inits(op),
                        o.regions[0],
                    ),
                )
            } else {
                None
            }
        } else if self.is_op(op, "scf"@, "while"@) {
            if o.regions.len() >= 2 {
                Some(ControlView::While(o.operands, o.regions[0], o.regions[1]))
            } else {
                None
            }
        } else if self.is_op(op, "func"@, "call"@) {
            if values.len() > 0 {
                Some(
                    ControlView::Call(
                        values[0],
                        self.call_args(op),
                        self.left_state(op) is Some,
                    ),
                )
            } else {
                None
            }
        } else if self.is_op(op, "cfg"@, "br"@) {
            match self.block_ref_attr(op, "dest"@) {
                Some(dest) => Some(ControlView::Jump(dest, o.operands)),
                None => None,
            }
        } else if self.is_op(op, "cfg"@, "cond_br"@) {
            if self.cond_branch_wf(op) {
                Some(
                    ControlView::Fork(
                        o.operands[0],
                        self.block_ref_attr(op, "true_dest"@)->0,
                        self.true_args(op),
                        self.block_ref_attr(op, "false_dest"@)->0,
                        self.false_args(op),
                    ),
                )
            } else {
                None
            }
        } else {
            Some(ControlView::Leaf)
        }
    }
}

/// Whether `r` is what `expected` says.
pub open spec fn decodes(r: Option<Control>, expected: Option<ControlView>) -> bool {
    match r {
        Some(control) => expected == Some(control@),
        None => expected is None,
    }
}

fn recorded(context: &Context, op: OpId, k: usize) -> (n: u64)
    requires
        context.inv(),
        context@.ir.op(op) is Some,
    ensures
        n == context@.group_size(op, k as int),
{
    match sizes_of(&context.op_attributes(op)) {
        Some(items) => {
            if k < items.len() {
                assert(crate::attributes::attr_views(items@)[k as int]
                    == crate::attributes::attr_view(items@[k as int]));
                size_of_item(&items[k])
            } else {
                0
            }
        },
        None => 0,
    }
}

fn fork(context: &Context, op: OpId) -> (r: Option<Control>)
    requires
        context.inv(),
        context@.readable(op),
    ensures
        r is Some == context@.cond_branch_wf(op),
        r is Some ==> r->0@ == ControlView::Fork(
            context@.ir.op(op)->0.operands[0],
            context@.block_ref_attr(op, "true_dest"@)->0,
            context@.true_args(op),
            context@.block_ref_attr(op, "false_dest"@)->0,
            context@.false_args(op),
        ),
{
    let taken: u64 = recorded(context, op, 1);
    let spared: u64 = recorded(context, op, 2);
    let all: usize = context.operands_of(op).len();
    if 1 + taken as u128 + spared as u128 > all as u128 {
        return None;
    }
    let dest = match block_ref_attr(context, op, "true_dest") {
        Some(dest) => dest,
        None => {
            return None;
        },
    };
    let other = match block_ref_attr(context, op, "false_dest") {
        Some(other) => other,
        None => {
            return None;
        },
    };
    let middle: usize = 1 + taken as usize;
    let end: usize = middle + spared as usize;
    Some(
        Control::Fork {
            decider: context.operands_of(op)[0],
            dest,
            args: operand_slice(context, op, 1, middle),
            other,
            other_args: operand_slice(context, op, middle, end),
        },
    )
}

fn counted(context: &Context, op: &OpHandle) -> (r: Option<Control>)
    requires
        context.inv(),
        context@.readable(op.id),
    ensures
        ({
            let o = context@.ir.op(op.id)->0;
            let values = context@.value_operands(op.id);
            decodes(
                r,
                if values.len() >= 3 && o.regions.len() > 0 {
                    Some(
                        ControlView::Counted(
                            values[0],
                            values[values.len() - 2],
                            values[values.len() - 1],
                            context@.counted_inits(op.id),
                            o.regions[0],
                        ),
                    )
                } else {
                    None
                },
            )
        }),
{
    let values = op.value_operands(context).to_vec();
    let regions = context.regions_of(op.id);
    if values.len() < 3 || regions.len() == 0 {
        return None;
    }
    let n: usize = values.len();
    let mut inits: Vec<ValueId> = Vec::new();
    let mut i: usize = 0;
    while i < n - 2
        invariant
            n == values.len(),
            n >= 3,
            i <= n - 2,
            inits@ == values@.take(i as int),
        decreases n - i,
    {
        inits.push(values[i]);
        i += 1;
        assert(inits@ =~= values@.take(i as int));
    }
    let mut states = op.dep_operands(context).to_vec();
    let ghost threaded = states@;
    inits.append(&mut states);
    assert(inits@ =~= values@.take(n - 2) + threaded);
    Some(
        Control::Counted {
            lower: values[0],
            upper: values[n - 2],
            step: values[n - 1],
            inits,
            body: regions[0],
        },
    )
}

fn call(context: &Context, op: &OpHandle) -> (r: Option<Control>)
    requires
        context.inv(),
        context@.readable(op.id),
    ensures
        decodes(
            r,
            if context@.value_operands(op.id).len() > 0 {
                Some(
                    ControlView::Call(
                        context@.value_operands(op.id)[0],
                        context@.call_args(op.id),
                        context@.left_state(op.id) is Some,
                    ),
                )
            } else {
                None
            },
        ),
{
    let mut args = op.value_operands(context).to_vec();
    if args.len() == 0 {
        return None;
    }
    let ghost all = args@;
    let callee = args.remove(0);
    assert(args@ =~= all.skip(1));
    let state = produced_state(context, op).is_some();
    Some(Control::Call { callee, args, state })
}

/// What `op` does to control, or `None` where it does not have what that takes.
pub fn control_of(context: &Context, op: OpId) -> (r: Option<Control>)
    requires
        context.inv(),
        context@.readable(op),
    ensures
        decodes(r, context@.control(op)),
{
    let handle = context.get_op(op);
    let operands = context.operands_of(op);
    let regions = context.regions_of(op);
    if handle.is_name(context, "scf", "yield") || handle.is_name(context, "scf", "condition") {
        return Some(Control::Yield);
    }
    if handle.is_name(context, "func", "return") {
        return Some(Control::Return);
    }
    let breaks = handle.is_name(context, "scf", "break");
    if breaks || handle.is_name(context, "scf", "continue") {
        return if operands.len() > 0 {
            Some(Control::Exit { breaks })
        } else {
            None
        };
    }
    if handle.is_name(context, "scf", "if") {
        return if operands.len() > 0 && regions.len() >= 2 {
            Some(Control::Gate { arms: copy_list(regions), switch: false })
        } else {
            None
        };
    }
    if handle.is_name(context, "scf", "switch") {
        return if operands.len() > 0 && regions.len() > 0 {
            Some(Control::Gate { arms: copy_list(regions), switch: true })
        } else {
            None
        };
    }
    if handle.is_name(context, "scf", "for") {
        return counted(context, &handle);
    }
    if handle.is_name(context, "scf", "while") {
        return if regions.len() >= 2 {
            Some(
                Control::While {
                    inits: copy_list(operands),
                    condition: regions[0],
                    body: regions[1],
                },
            )
        } else {
            None
        };
    }
    if handle.is_name(context, "func", "call") {
        return call(context, &handle);
    }
    if handle.is_name(context, "cfg", "br") {
        return match block_ref_attr(context, op, "dest") {
            Some(dest) => Some(Control::Jump { dest, args: copy_list(operands) }),
            None => None,
        };
    }
    if handle.is_name(context, "cfg", "cond_br") {
        return fork(context, op);
    }
    Some(Control::Leaf)
}

/// Whether `id` is a live scope token.
pub fn is_token(context: &Context, id: ValueId) -> (r: bool)
    requires
        context.inv(),
    ensures
        r == context@.is_token(id),
{
    if !context.has_value(id) {
        return false;
    }
    let ty = context.get_value(id).ty;
    if ty.0 as usize >= context.type_count() {
        return false;
    }
    match context.get_type_data(ty) {
        Type::Token(_) => true,
        _ => false,
    }
}

} // verus!

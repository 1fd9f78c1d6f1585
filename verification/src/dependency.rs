//! Dependencies: the trailing partition of every operand, result and argument
//! list, carrying no bits and printing without a type.
//!
//! A dependency names the state of memory, or any other ordering effect, at
//! one point in the program. An operation consumes the dependencies it observes
//! and produces the ones it leaves behind, so ordering is an explicit def-use
//! edge rather than a side channel. Where the partition sits is a count on the
//! operation, block or region; what these helpers share is how it is spelled:
//! `%v | %d = op %a | %c : !ty`, the dependencies after a `|` on either side.
use vstd::prelude::*;
use vstd::string::*;
use crate::context::Context;
use crate::context::ContextView;
use crate::context::OpHandle;
use crate::ids::OpId;
use crate::ids::ValueId;
use crate::ir::OpView;
use crate::ir_formatter::IRFormatter;
use crate::text::decimal;
use crate::text::decimal_string;

verus! {

/// A value as it is referred to.
pub open spec fn value_name(value: ValueId) -> Seq<char> {
    "%"@ + decimal(value.0 as nat)
}

/// `%a, %b`.
pub open spec fn value_list(values: Seq<ValueId>) -> Seq<char>
    decreases values.len(),
{
    if values.len() == 0 {
        Seq::empty()
    } else if values.len() == 1 {
        value_name(values[0])
    } else {
        value_list(values.drop_last()) + ", "@ + value_name(values.last())
    }
}

/// `| %c, %d`, led by a space when `spaced`, and nothing for no dependency.
pub open spec fn dep_list(deps: Seq<ValueId>, spaced: bool) -> Seq<char> {
    if deps.len() == 0 {
        Seq::empty()
    } else {
        (if spaced {
            " | "@
        } else {
            "| "@
        }) + value_list(deps)
    }
}

/// `%a, %b | %c, %d = `, and nothing for an operation that produces nothing.
pub open spec fn result_prefix(context: ContextView, op: OpId) -> Seq<char> {
    let values = context.value_results(op);
    let deps = context.dep_results(op);
    if values.len() == 0 && deps.len() == 0 {
        Seq::empty()
    } else {
        value_list(values) + dep_list(deps, values.len() > 0) + " = "@
    }
}

/// The name a value is referred to by.
pub fn value_text(value: ValueId) -> (s: String)
    ensures
        s@ == value_name(value),
{
    let mut s = "%".to_owned();
    s.append(decimal_string(value.0 as u64).as_str());
    s
}

/// `%a, %b`.
pub fn value_list_text(values: &[ValueId]) -> (s: String)
    ensures
        s@ == value_list(values@),
{
    let mut s = String::new();
    let mut i: usize = 0;
    while i < values.len()
        invariant
            i <= values.len(),
            s@ == value_list(values@.take(i as int)),
        decreases values.len() - i,
    {
        let ghost more = values@.take(i + 1);
        assert(more.drop_last() =~= values@.take(i as int));
        assert(more.last() == values@[i as int]);
        if i > 0 {
            s.append(", ");
        }
        let ghost before = s@;
        s.append(value_text(values[i]).as_str());
        if i == 0 {
            assert(s@ =~= value_name(values@[0]));
            assert(more[0] == values@[0]);
        }
        i += 1;
    }
    assert(values@.take(i as int) =~= values@);
    s
}

/// Prints `%a, %b | %c, %d = ` for an op that produces anything, and nothing
/// for one that does not.
pub fn print_result_prefix(fmt: &mut IRFormatter, context: &Context, op: &OpHandle)
    requires
        context.inv(),
        context@.readable(op.id),
    ensures
        final(fmt)@ == if context@.ir.op(op.id)->0.results.len() == 0 {
            old(fmt)@
        } else {
            old(fmt)@.written(result_prefix(context@, op.id))
        },
{
    let values = op.value_results(context).to_vec();
    let deps = op.dep_results(context).to_vec();
    if values.len() == 0 && deps.len() == 0 {
        return;
    }
    let mut s = value_list_text(values.as_slice());
    if deps.len() > 0 {
        let ghost before = s@;
        if values.len() > 0 {
            s.append(" | ");
        } else {
            s.append("| ");
        }
        s.append(value_list_text(deps.as_slice()).as_str());
        assert(s@ =~= value_list(values@) + dep_list(deps@, values@.len() > 0));
    } else {
        assert(s@ =~= value_list(values@) + dep_list(deps@, values@.len() > 0));
    }
    s.append(" = ");
    fmt.write(s.as_str());
}

/// Prints ` | %c, %d` for an op observing any dependency, and nothing otherwise.
pub fn print_dep_operands(fmt: &mut IRFormatter, context: &Context, op: &OpHandle)
    requires
        context.inv(),
        context@.readable(op.id),
    ensures
        final(fmt)@ == if context@.dep_operands(op.id).len() == 0 {
            old(fmt)@
        } else {
            old(fmt)@.written(dep_list(context@.dep_operands(op.id), true))
        },
{
    let deps = op.dep_operands(context).to_vec();
    print_dep_list(fmt, deps.as_slice(), true);
}

/// Prints `| %c, %d`, led by a space when `spaced`, for a non-empty list.
pub fn print_dep_list(fmt: &mut IRFormatter, deps: &[ValueId], spaced: bool)
    ensures
        final(fmt)@ == if deps@.len() == 0 {
            old(fmt)@
        } else {
            old(fmt)@.written(dep_list(deps@, spaced))
        },
{
    if deps.len() == 0 {
        return;
    }
    let mut s = if spaced {
        " | ".to_owned()
    } else {
        "| ".to_owned()
    };
    s.append(value_list_text(deps).as_str());
    fmt.write(s.as_str());
}

/// Prints `%a, %b`.
pub fn print_value_list(fmt: &mut IRFormatter, values: &[ValueId])
    ensures
        final(fmt)@ == if values@.len() == 0 {
            old(fmt)@
        } else {
            old(fmt)@.written(value_list(values@))
        },
{
    if values.len() == 0 {
        return;
    }
    fmt.write(value_list_text(values).as_str());
}

/// The text of a value list tells the values.
pub proof fn value_names_are_distinct(a: ValueId, b: ValueId)
    requires
        value_name(a) == value_name(b),
    ensures
        a == b,
{
    let x = value_name(a);
    let y = value_name(b);
    assert(x.skip("%"@.len() as int) =~= decimal(a.0 as nat));
    assert(y.skip("%"@.len() as int) =~= decimal(b.0 as nat));
    crate::text::decimal_is_injective(a.0 as nat, b.0 as nat);
}

impl ContextView {
    /// With one more dependency operand, and one more dependency result, on a
    /// live operation.
    pub open spec fn with_observed(self, op: OpId, observed: ValueId) -> Self {
        let held = self.ir.op(op)->0;
        let moved = self.ir.put_operands(op, held.operands.push(observed));
        self.with_ir(
            moved.put_op(
                op,
                OpView { dep_operands: (held.dep_operands + 1) as u16, ..moved.op(op)->0 },
            ),
        ).reported_op(op)
    }

    pub open spec fn with_left(self, op: OpId, id: ValueId) -> Self {
        let held = self.ir.op(op)->0;
        let minted = self.with_value(crate::ids::state_type(), Some(op));
        minted.with_ir(
            minted.ir.put_op(
                op,
                OpView {
                    results: held.results.push(id),
                    dep_results: (held.dep_results + 1) as u16,
                    ..held
                },
            ),
        ).reported_op(op)
    }
}

/// Puts `op` on the chain `observed` names and hands back the dependency it
/// leaves behind. Machine instructions built by a target's own opcode builders
/// (spill code, the stores that place a call's stack arguments) know nothing
/// of the memory they land in, so the ports are grown onto the instruction here.
pub fn put_on_chain(context: &mut Context, op: OpId, observed: ValueId) -> (left: ValueId)
    requires
        old(context).inv(),
        observed.0 < u32::MAX,
        old(context)@.ir.op(op) is Some,
        old(context)@.ir.op(op)->0.dep_operands < u16::MAX,
        old(context)@.ir.op(op)->0.dep_results < u16::MAX,
        old(context)@.ir.values.now.len() < u32::MAX,
    ensures
        final(context).inv(),
        left.0 == old(context)@.ir.values.now.len(),
        final(context)@ == old(context)@.with_observed(op, observed).with_left(op, left),
{
    context.append_dep_operand(op, observed);
    context.append_dep_result(op)
}

} // verus!

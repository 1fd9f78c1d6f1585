//! Calls by name and through a value.
use vstd::prelude::*;
use crate::access::str_attr;
use crate::attributes::AttributeValue;
use crate::builder::BuilderView;
use crate::builder::OpBuilder;
use crate::context::Context;
use crate::context::ContextView;
use crate::context::OpHandle;
use crate::dependency::value_name;
use crate::dependency::value_text;
use crate::dialects::print::type_of_text;
use crate::dialects::print::typed_args_text;
use crate::ids::OpId;
use crate::ids::TypeId;
use crate::ids::ValueId;
use crate::ir::copy_list;
use crate::ir_formatter::IRFormatter;
use crate::text::cat2;
use crate::text::cat3;
use crate::text::cat5;
use crate::ty::type_text;
use crate::ty::Type;
use crate::ty::TypeView;

verus! {

/// A call of the function a symbol names.
#[derive(Debug, Clone, Copy)]
pub struct CallOp(pub OpHandle);

/// A call of the function a value points to.
#[derive(Debug, Clone, Copy)]
pub struct IndirectCallOp(pub OpHandle);

/// Builds a [`CallOp`].
pub struct CallOpBuilder(pub OpBuilder);

/// Builds an [`IndirectCallOp`].
pub struct IndirectCallOpBuilder(pub OpBuilder);

impl ContextView {
    /// Whether a call says what it calls and has a typed result and typed
    /// arguments.
    pub open spec fn call_wf(self, op: OpId) -> bool {
        &&& self.ir.op(op) is Some
        &&& self.ir.op(op)->0.results.len() > 0
        &&& self.values_typed(self.ir.op(op)->0.results)
        &&& self.values_typed(self.ir.op(op)->0.operands)
    }

    /// Whether a call produces nothing.
    pub open spec fn calls_for_nothing(self, result: ValueId) -> bool {
        self.types[self.type_of(result).0 as int] == TypeView::Unit
    }

    /// A call as it is written: `%r = <header>(%a, %b : t1, t2) -> ret`, without
    /// the result and the arrow where it produces nothing.
    pub open spec fn call_text(self, header: Seq<char>, result: ValueId, args: Seq<ValueId>) -> Seq<
        char,
    > {
        if self.calls_for_nothing(result) {
            header + self.typed_args(args) + "\n"@
        } else {
            value_name(result) + " = "@ + header + self.typed_args(args) + (" -> "@ + type_text(
                self.types,
                self.type_of(result),
            ) + "\n"@)
        }
    }
}

/// Prints a call as `%r = <header>(%a, %b : t1, t2) -> ret`, omitting the result
/// binding and arrow for unit-returning calls.
pub fn print_call(
    context: &Context,
    fmt: &mut IRFormatter,
    header: &str,
    result: ValueId,
    args: &Vec<ValueId>,
)
    requires
        context.inv(),
        context@.ir.value(result) is Some,
        context@.value_sound(result),
        context@.values_typed(args@),
    ensures
        final(fmt)@ == old(fmt)@.written(context@.call_text(header@, result, args@)),
{
    let ty = context.get_value(result).ty;
    let is_unit = match context.get_type_data(ty) {
        Type::Unit(_) => true,
        _ => false,
    };
    let arguments = typed_args_text(context, args);
    if is_unit {
        let text = cat3(header, arguments.as_str(), "\n");
        fmt.write(text.as_str());
    } else {
        let tail = cat3(" -> ", type_of_text(context, result).as_str(), "\n");
        let text = cat5(
            value_text(result).as_str(),
            " = ",
            header,
            arguments.as_str(),
            tail.as_str(),
        );
        fmt.write(text.as_str());
    }
}

impl CallOp {
    /// The name of the function called.
    pub fn callee(&self, context: &Context) -> (s: String)
        requires
            context.inv(),
            context@.str_attr(self.0.id, "callee"@) is Some,
        ensures
            context@.str_attr(self.0.id, "callee"@) == Some(s@),
    {
        str_attr(context, self.0.id, "callee").unwrap()
    }

    /// The arguments.
    pub fn args(&self, context: &Context) -> (r: Vec<ValueId>)
        requires
            context.inv(),
            context@.ir.op(self.0.id) is Some,
        ensures
            r@ == context@.ir.op(self.0.id)->0.operands,
    {
        copy_list(context.operands_of(self.0.id))
    }

    /// What the call produces.
    pub fn result(&self, context: &Context) -> (v: ValueId)
        requires
            context.inv(),
            context@.ir.op(self.0.id) is Some,
            context@.ir.op(self.0.id)->0.results.len() > 0,
        ensures
            v == context@.ir.op(self.0.id)->0.results[0],
    {
        context.results_of(self.0.id)[0]
    }

    /// Prints the call.
    pub fn custom_print(&self, context: &Context, fmt: &mut IRFormatter)
        requires
            context.inv(),
            context@.call_wf(self.0.id),
            context@.str_attr(self.0.id, "callee"@) is Some,
        ensures
            final(fmt)@ == old(fmt)@.written(
                context@.call_text(
                    "call @"@ + context@.str_attr(self.0.id, "callee"@)->0,
                    context@.ir.op(self.0.id)->0.results[0],
                    context@.ir.op(self.0.id)->0.operands,
                ),
            ),
    {
        let header = cat2("call @", self.callee(context).as_str());
        let result = self.result(context);
        assert(context@.value_sound(context@.ir.op(self.0.id)->0.results[0]));
        let args = self.args(context);
        print_call(context, fmt, header.as_str(), result, &args);
    }
}

impl CallOpBuilder {
    /// A call of nothing yet.
    pub fn new() -> (r: Self)
        ensures
            r.0@ == BuilderView::fresh("builtin"@, "call"@),
    {
        CallOpBuilder(OpBuilder::new("builtin", "call"))
    }

    /// With the arguments.
    pub fn args(self, args: Vec<ValueId>) -> (r: Self)
        ensures
            r.0@ == self.0@.with_group(args@).with_segments(),
    {
        CallOpBuilder(self.0.operands(args).segments())
    }

    /// With an attribute.
    pub fn attr(self, name: &str, value: AttributeValue) -> (r: Self)
        ensures
            r.0@ == self.0@.with_attr(name@, value@),
    {
        CallOpBuilder(self.0.attr(name, value))
    }

    /// With the type of what is produced.
    pub fn result_type(self, ty: TypeId) -> (r: Self)
        ensures
            r.0@ == self.0@.with_result(ty),
    {
        CallOpBuilder(self.0.result_type(ty))
    }

    /// Stores the call.
    pub fn build(self, context: &mut Context) -> (op: CallOp)
        requires
            old(context).inv(),
            self.0@.fits(old(context)@),
        ensures
            final(context).inv(),
            final(context)@ == self.0@.built(old(context)@),
            op.0.id == OpId(old(context)@.ir.ops.now.len() as u32),
            final(context)@.ir.op(op.0.id) == Some(self.0@.op(old(context)@)),
    {
        CallOp(self.0.build(context))
    }
}

impl IndirectCallOp {
    /// The function called.
    pub fn callee(&self, context: &Context) -> (v: ValueId)
        requires
            context.inv(),
            context@.ir.op(self.0.id) is Some,
            context@.ir.op(self.0.id)->0.operands.len() > 0,
        ensures
            v == context@.ir.op(self.0.id)->0.operands[0],
    {
        context.operands_of(self.0.id)[0]
    }

    /// The arguments: every operand but the first.
    pub fn args(&self, context: &Context) -> (r: Vec<ValueId>)
        requires
            context.inv(),
            context@.ir.op(self.0.id) is Some,
            context@.ir.op(self.0.id)->0.operands.len() > 0,
        ensures
            r@ == context@.ir.op(self.0.id)->0.operands.skip(1),
    {
        let mut r = copy_list(context.operands_of(self.0.id));
        let ghost all = r@;
        let _ = r.remove(0);
        assert(r@ =~= all.skip(1));
        r
    }

    /// What the call produces.
    pub fn result(&self, context: &Context) -> (v: ValueId)
        requires
            context.inv(),
            context@.ir.op(self.0.id) is Some,
            context@.ir.op(self.0.id)->0.results.len() > 0,
        ensures
            v == context@.ir.op(self.0.id)->0.results[0],
    {
        context.results_of(self.0.id)[0]
    }

    /// Prints the call.
    pub fn custom_print(&self, context: &Context, fmt: &mut IRFormatter)
        requires
            context.inv(),
            context@.call_wf(self.0.id),
            context@.ir.op(self.0.id)->0.operands.len() > 0,
        ensures
            final(fmt)@ == old(fmt)@.written(
                context@.call_text(
                    "indirect_call "@ + value_name(context@.ir.op(self.0.id)->0.operands[0]),
                    context@.ir.op(self.0.id)->0.results[0],
                    context@.ir.op(self.0.id)->0.operands.skip(1),
                ),
            ),
    {
        let header = cat2("indirect_call ", value_text(self.callee(context)).as_str());
        let result = self.result(context);
        let args = self.args(context);
        proof {
            let o = context@.ir.op(self.0.id)->0;
            assert(context@.value_sound(o.results[0]));
            assert forall|i: int| 0 <= i < args@.len() implies context@.ir.value(
                #[trigger] args@[i],
            ) is Some && context@.value_sound(args@[i]) by {
                assert(args@[i] == o.operands[i + 1]);
            }
        }
        print_call(context, fmt, header.as_str(), result, &args);
    }
}

impl IndirectCallOpBuilder {
    /// A call of nothing yet.
    pub fn new() -> (r: Self)
        ensures
            r.0@ == BuilderView::fresh("builtin"@, "indirect_call"@),
    {
        IndirectCallOpBuilder(OpBuilder::new("builtin", "indirect_call"))
    }

    /// With the function called.
    pub fn callee(self, callee: ValueId) -> (r: Self)
        ensures
            r.0@ == self.0@.with_group(seq![callee]),
    {
        IndirectCallOpBuilder(self.0.operand(callee))
    }

    /// With the arguments.
    pub fn args(self, args: Vec<ValueId>) -> (r: Self)
        ensures
            r.0@ == self.0@.with_group(args@).with_segments(),
    {
        IndirectCallOpBuilder(self.0.operands(args).segments())
    }

    /// With the type of what is produced.
    pub fn result_type(self, ty: TypeId) -> (r: Self)
        ensures
            r.0@ == self.0@.with_result(ty),
    {
        IndirectCallOpBuilder(self.0.result_type(ty))
    }

    /// Stores the call.
    pub fn build(self, context: &mut Context) -> (op: IndirectCallOp)
        requires
            old(context).inv(),
            self.0@.fits(old(context)@),
        ensures
            final(context).inv(),
            final(context)@ == self.0@.built(old(context)@),
            op.0.id == OpId(old(context)@.ir.ops.now.len() as u32),
            final(context)@.ir.op(op.0.id) == Some(self.0@.op(old(context)@)),
    {
        IndirectCallOp(self.0.build(context))
    }
}

} // verus!

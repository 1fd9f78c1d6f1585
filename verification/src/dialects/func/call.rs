//! Calls of function values.
use vstd::prelude::*;
use crate::access::flag_attr;
use crate::access::str_attr;
use crate::attributes::AttrView;
use crate::attributes::AttributeValue;
use crate::builder::BuilderView;
use crate::builder::OpBuilder;
use crate::context::Context;
use crate::context::ContextView;
use crate::context::OpHandle;
use crate::dependency::dep_list;
use crate::dependency::value_list_text;
use crate::dependency::value_name;
use crate::dependency::value_text;
use crate::dialects::builtin::fn_type::signature_accepts;
use crate::dialects::func::alignments_failure;
use crate::dialects::func::alignments_in;
use crate::dialects::func::keyed_list;
use crate::dialects::func::keyed_list_text;
use crate::dialects::func::numbers_attr;
use crate::dialects::func::numbers_attr_view;
use crate::dialects::func::numbers_of;
use crate::dialects::func::verify_argument_alignments;
use crate::dialects::print::type_names_text;
use crate::dialects::print::type_of_text;
use crate::dialects::print::typed_args_text;
use crate::dialects::print::types_of;
use crate::error::either;
use crate::error::invalid;
use crate::error::verdict;
use crate::error::Error;
use crate::ids::OpId;
use crate::ids::TypeId;
use crate::ids::ValueId;
use crate::ir_formatter::IRFormatter;
use crate::text::cat2;
use crate::text::cat4;
use crate::text::cat5;
use crate::ty::type_text;
use crate::ty::FnType;
use crate::ty::Type;

verus! {

/// A call of a function value.
#[derive(Debug, Clone, Copy)]
pub struct CallOp(pub OpHandle);

/// Builds a [`CallOp`].
pub struct CallOpBuilder(pub OpBuilder);

impl ContextView {
    /// Whether a call can be read: it takes a function and gives a value, and
    /// all it names is live and typed.
    pub open spec fn func_call_wf(self, op: OpId) -> bool {
        &&& self.readable(op)
        &&& self.value_operands(op).len() > 0
        &&& self.value_results(op).len() > 0
        &&& self.values_typed(self.ir.op(op)->0.operands)
        &&& self.values_typed(self.ir.op(op)->0.results)
    }

    /// The arguments of a call: every value operand but the function.
    pub open spec fn call_args(self, op: OpId) -> Seq<ValueId> {
        self.value_operands(op).skip(1)
    }

    /// The first argument must be a pointer where the result goes to an address.
    pub open spec fn result_address_failure(
        self,
        addressed: bool,
        args: Seq<TypeId>,
        what: Seq<char>,
    ) -> Option<Seq<char>> {
        if !addressed {
            None
        } else if args.len() == 0 {
            Some("result-address "@ + what + " requires a destination argument"@)
        } else if self.types[args[0].0 as int] is Ptr {
            None
        } else {
            Some("result-address "@ + what + " destination must have pointer type"@)
        }
    }

    /// Why a call is wrong about what it passes and what it gets.
    pub open spec fn call_signature_failure(self, op: OpId) -> Option<Seq<char>> {
        let args = self.types_of(self.call_args(op));
        let result = self.type_of(self.ir.op(op)->0.results[0]);
        match self.signature_of(self.ir.op(op)->0.operands[0]) {
            None => Some("call callee must be a function value"@),
            Some((params, ret)) => if !self.accepts(params, args) {
                Some(
                    "call passes ("@ + self.type_names(args, args.len() as int)
                        + "), but the callee takes ("@ + self.type_names(
                        params,
                        params.len() as int,
                    ) + ")"@,
                )
            } else if result != ret {
                Some(
                    "call produces "@ + type_text(self.types, result)
                        + ", but the callee returns "@ + type_text(self.types, ret),
                )
            } else {
                None
            },
        }
    }

    /// Why a call is wrong.
    pub open spec fn func_call_failure(self, op: OpId) -> Option<Seq<char>> {
        either(
            alignments_failure(
                self.attr(op, "argument_alignments"@),
                self.call_args(op).len(),
                "call"@,
            ),
            either(
                self.result_address_failure(
                    self.flag_attr(op, "result_address"@),
                    self.types_of(self.call_args(op)),
                    "call"@,
                ),
                self.call_signature_failure(op),
            ),
        )
    }

    /// What stands before a call: the value it gives, unless that is nothing,
    /// and the dependencies it leaves.
    pub open spec fn call_binding(self, op: OpId) -> Seq<char> {
        let unit = self.calls_for_nothing(self.ir.op(op)->0.results[0]);
        let deps = self.dep_results(op);
        (if unit {
            Seq::<char>::empty()
        } else {
            value_name(self.ir.op(op)->0.results[0])
        }) + dep_list(deps, !unit) + (if !unit || deps.len() > 0 {
            " = "@
        } else {
            Seq::<char>::empty()
        })
    }

    /// What stands after the arguments of a call.
    pub open spec fn call_tail(self, op: OpId) -> Seq<char> {
        (if self.calls_for_nothing(self.ir.op(op)->0.results[0]) {
            Seq::<char>::empty()
        } else {
            " -> "@ + type_text(self.types, self.type_of(self.ir.op(op)->0.results[0]))
        }) + (if self.flag_attr(op, "result_address"@) {
            " result_address"@
        } else {
            Seq::<char>::empty()
        }) + (match self.str_attr(op, "callee"@) {
            Some(symbol) => " callee @"@ + symbol,
            None => Seq::<char>::empty(),
        }) + keyed_list(
            "argument_alignments"@,
            alignments_in(self.attr(op, "argument_alignments"@)),
        ) + dep_list(self.dep_operands(op), true)
    }

    /// A call as it is written.
    pub open spec fn func_call_text(self, op: OpId) -> Seq<char> {
        self.call_binding(op) + "func.call "@ + value_name(self.ir.op(op)->0.operands[0])
            + self.typed_args(self.call_args(op)) + self.call_tail(op) + "\n"@
    }
}

/// `| %c, %d`, led by a space when `spaced`.
fn dep_text(deps: &Vec<ValueId>, spaced: bool) -> (s: String)
    ensures
        s@ == dep_list(deps@, spaced),
{
    if deps.len() == 0 {
        let none = String::new();
        assert(none@ =~= Seq::<char>::empty());
        return none;
    }
    let list = value_list_text(deps.as_slice());
    if spaced {
        cat2(" | ", list.as_str())
    } else {
        cat2("| ", list.as_str())
    }
}

fn nothing() -> (s: String)
    ensures
        s@ == Seq::<char>::empty(),
{
    let s = String::new();
    assert(s@ =~= Seq::<char>::empty());
    s
}

/// Checks that the first argument is a pointer where the result goes to an
/// address.
pub fn verify_result_address(
    context: &Context,
    addressed: bool,
    args: &Vec<TypeId>,
    what: &str,
) -> (r: Result<(), Error>)
    requires
        context.inv(),
        context@.types_known(args@),
    ensures
        verdict(r, context@.result_address_failure(addressed, args@, what@)),
{
    if !addressed {
        return Ok(());
    }
    if args.len() == 0 {
        return Err(
            invalid(
                crate::text::cat3(
                    "result-address ",
                    what,
                    " requires a destination argument",
                ).as_str(),
            ),
        );
    }
    match context.get_type_data(args[0]) {
        Type::Ptr(_) => Ok(()),
        _ => Err(
            invalid(
                crate::text::cat3(
                    "result-address ",
                    what,
                    " destination must have pointer type",
                ).as_str(),
            ),
        ),
    }
}

proof fn call_args_are_typed(context: ContextView, op: OpId)
    requires
        context.func_call_wf(op),
    ensures
        context.values_typed(context.call_args(op)),
        context.value_sound(context.ir.op(op)->0.operands[0]),
        context.ir.value(context.ir.op(op)->0.operands[0]) is Some,
        context.value_sound(context.ir.op(op)->0.results[0]),
        context.ir.value(context.ir.op(op)->0.results[0]) is Some,
        context.value_operands(op)[0] == context.ir.op(op)->0.operands[0],
        context.value_results(op)[0] == context.ir.op(op)->0.results[0],
        context.ir.op(op)->0.operands.len() > 0,
        context.ir.op(op)->0.results.len() > 0,
{
    let args = context.call_args(op);
    let all = context.ir.op(op)->0.operands;
    assert forall|i: int| 0 <= i < args.len() implies context.ir.value(#[trigger] args[i]) is Some
        && context.value_sound(args[i]) by {
        assert(args[i] == all[i + 1]);
    }
    assert(context.ir.value(all[0]) is Some);
    assert(context.ir.value(context.ir.op(op)->0.results[0]) is Some);
}

impl CallOp {
    /// The function called.
    pub fn callee(&self, context: &Context) -> (v: ValueId)
        requires
            context.inv(),
            context@.ir.op(self.0.id) is Some,
            context@.ir.op(self.0.id)->0.operands.len() > 0,
        ensures
            v == context@.ir.op(self.0.id)->0.operands[0],
    {
        context.operands_of(self.0.id)[0]
    }

    /// The arguments.
    pub fn args(&self, context: &Context) -> (r: Vec<ValueId>)
        requires
            context.inv(),
            context@.readable(self.0.id),
            context@.value_operands(self.0.id).len() > 0,
        ensures
            r@ == context@.call_args(self.0.id),
    {
        let mut r = self.0.value_operands(context).to_vec();
        let ghost all = r@;
        let _ = r.remove(0);
        assert(r@ =~= all.skip(1));
        r
    }

    /// What the call gives.
    pub fn result(&self, context: &Context) -> (v: ValueId)
        requires
            context.inv(),
            context@.ir.op(self.0.id) is Some,
            context@.ir.op(self.0.id)->0.results.len() > 0,
        ensures
            v == context@.ir.op(self.0.id)->0.results[0],
    {
        context.results_of(self.0.id)[0]
    }

    /// Whether the result goes to the address the first argument names.
    pub fn has_result_address(&self, context: &Context) -> (r: bool)
        requires
            context.inv(),
        ensures
            r == context@.flag_attr(self.0.id, "result_address"@),
    {
        flag_attr(context, self.0.id, "result_address")
    }

    /// The alignments of the arguments.
    pub fn argument_alignments(&self, context: &Context) -> (r: Vec<u64>)
        requires
            context.inv(),
        ensures
            numbers_of(r@) == alignments_in(context@.attr(self.0.id, "argument_alignments"@)),
    {
        crate::dialects::func::argument_alignments(context, self.0.id)
    }

    /// The symbol this call was bound to for machine lowering, once the callee
    /// has been resolved to a λ of the module.
    pub fn callee_symbol(&self, context: &Context) -> (r: Option<String>)
        requires
            context.inv(),
        ensures
            match r {
                Some(symbol) => context@.str_attr(self.0.id, "callee"@) == Some(symbol@),
                None => context@.str_attr(self.0.id, "callee"@) is None,
            },
    {
        str_attr(context, self.0.id, "callee")
    }

    fn verify_signature(&self, context: &Context, arg_types: &Vec<TypeId>) -> (r: Result<
        (),
        Error,
    >)
        requires
            context.inv(),
            context@.func_call_wf(self.0.id),
            arg_types@ == context@.types_of(context@.call_args(self.0.id)),
            context@.types_known(arg_types@),
        ensures
            verdict(r, context@.call_signature_failure(self.0.id)),
    {
        proof {
            call_args_are_typed(context@, self.0.id);
        }
        let (params, ret) = match FnType::signature_of(context, self.callee(context)) {
            Some(signature) => signature,
            None => {
                return Err(invalid("call callee must be a function value"));
            },
        };
        if !signature_accepts(context, &params, arg_types) {
            let message = cat5(
                "call passes (",
                type_names_text(context, arg_types).as_str(),
                "), but the callee takes (",
                type_names_text(context, &params).as_str(),
                ")",
            );
            return Err(invalid(message.as_str()));
        }
        let result = context.get_value(self.result(context)).ty;
        if result != ret {
            let message = cat4(
                "call produces ",
                context.type_to_string(result).as_str(),
                ", but the callee returns ",
                context.type_to_string(ret).as_str(),
            );
            return Err(invalid(message.as_str()));
        }
        Ok(())
    }

    /// Checks what a call passes against what its callee takes and gives.
    pub fn verify_impl(&self, context: &Context) -> (r: Result<(), Error>)
        requires
            context.inv(),
            context@.func_call_wf(self.0.id),
        ensures
            verdict(r, context@.func_call_failure(self.0.id)),
    {
        let args = self.args(context);
        proof {
            call_args_are_typed(context@, self.0.id);
        }
        if let Err(e) = verify_argument_alignments(context, self.0.id, args.len(), "call") {
            return Err(e);
        }
        let arg_types = types_of(context, &args);
        if let Err(e) = verify_result_address(
            context,
            self.has_result_address(context),
            &arg_types,
            "call",
        ) {
            return Err(e);
        }
        self.verify_signature(context, &arg_types)
    }

    fn binding(&self, context: &Context, unit: bool) -> (s: String)
        requires
            context.inv(),
            context@.func_call_wf(self.0.id),
            unit == context@.calls_for_nothing(context@.ir.op(self.0.id)->0.results[0]),
        ensures
            s@ == context@.call_binding(self.0.id),
    {
        proof {
            call_args_are_typed(context@, self.0.id);
        }
        let published = self.0.dep_results(context).to_vec();
        let bound = if unit {
            nothing()
        } else {
            value_text(self.result(context))
        };
        let deps = dep_text(&published, !unit);
        let equals = if !unit || published.len() > 0 {
            " = "
        } else {
            ""
        };
        proof {
            reveal_strlit("");
            assert(""@ =~= Seq::<char>::empty());
        }
        crate::text::cat3(bound.as_str(), deps.as_str(), equals)
    }

    fn tail(&self, context: &Context, unit: bool) -> (s: String)
        requires
            context.inv(),
            context@.func_call_wf(self.0.id),
            unit == context@.calls_for_nothing(context@.ir.op(self.0.id)->0.results[0]),
        ensures
            s@ == context@.call_tail(self.0.id),
    {
        proof {
            call_args_are_typed(context@, self.0.id);
        }
        let arrow = if unit {
            nothing()
        } else {
            cat2(" -> ", type_of_text(context, self.result(context)).as_str())
        };
        let address = if self.has_result_address(context) {
            " result_address".to_owned()
        } else {
            nothing()
        };
        let symbol = match self.callee_symbol(context) {
            Some(symbol) => cat2(" callee @", symbol.as_str()),
            None => nothing(),
        };
        let alignments = keyed_list_text(
            "argument_alignments",
            &self.argument_alignments(context),
        );
        let observed = self.0.dep_operands(context).to_vec();
        cat5(
            arrow.as_str(),
            address.as_str(),
            symbol.as_str(),
            alignments.as_str(),
            dep_text(&observed, true).as_str(),
        )
    }

    /// Prints the call. A unit result is not spelled, so the binding is written
    /// out: the value, the dependencies, and `=` only where something is bound.
    pub fn custom_print(&self, context: &Context, fmt: &mut IRFormatter)
        requires
            context.inv(),
            context@.func_call_wf(self.0.id),
        ensures
            final(fmt)@ == old(fmt)@.written(context@.func_call_text(self.0.id)),
    {
        proof {
            call_args_are_typed(context@, self.0.id);
        }
        let unit = match context.get_type_data(context.get_value(self.result(context)).ty) {
            Type::Unit(_) => true,
            _ => false,
        };
        let args = self.args(context);
        let text = crate::text::cat6(
            self.binding(context, unit).as_str(),
            "func.call ",
            value_text(self.callee(context)).as_str(),
            typed_args_text(context, &args).as_str(),
            self.tail(context, unit).as_str(),
            "\n",
        );
        fmt.write(text.as_str());
    }
}

impl CallOpBuilder {
    /// A call of nothing yet.
    pub fn new() -> (r: Self)
        ensures
            r.0@ == BuilderView::fresh("func"@, "call"@),
    {
        CallOpBuilder(OpBuilder::new("func", "call"))
    }

    /// With the function called.
    pub fn callee(self, callee: ValueId) -> (r: Self)
        ensures
            r.0@ == self.0@.with_group(seq![callee]),
    {
        CallOpBuilder(self.0.operand(callee))
    }

    /// With the arguments.
    pub fn args(self, args: Vec<ValueId>) -> (r: Self)
        ensures
            r.0@ == self.0@.with_group(args@).with_segments(),
    {
        CallOpBuilder(self.0.operands(args).segments())
    }

    /// With the type of what is produced.
    pub fn result_type(self, ty: TypeId) -> (r: Self)
        ensures
            r.0@ == self.0@.with_result(ty),
    {
        CallOpBuilder(self.0.result_type(ty))
    }

    /// With an attribute.
    pub fn attr(self, name: &str, value: AttributeValue) -> (r: Self)
        ensures
            r.0@ == self.0@.with_attr(name@, value@),
    {
        CallOpBuilder(self.0.attr(name, value))
    }

    /// With the result going to the address the first argument names.
    pub fn result_address(self) -> (r: Self)
        ensures
            r.0@ == self.0@.with_attr("result_address"@, AttrView::Bool(true)),
    {
        self.attr("result_address", AttributeValue::Bool(true))
    }

    /// With the alignments of the arguments.
    pub fn argument_alignments(self, alignments: &Vec<u64>) -> (r: Self)
        ensures
            r.0@ == self.0@.with_attr(
                "argument_alignments"@,
                numbers_attr_view(numbers_of(alignments@)),
            ),
    {
        self.attr("argument_alignments", numbers_attr(alignments))
    }

    /// Stores the call.
    pub fn build(self, context: &mut Context) -> (op: CallOp)
        requires
            old(context).inv(),
            self.0@.fits(old(context)@),
        ensures
            final(context).inv(),
            final(context)@ == self.0@.built(old(context)@),
            op.0.id == OpId(old(context)@.ir.ops.now.len() as u32),
            final(context)@.ir.op(op.0.id) == Some(self.0@.op(old(context)@)),
    {
        CallOp(self.0.build(context))
    }
}

} // verus!

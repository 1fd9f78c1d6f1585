//! Declarations of functions another module defines: a λ node with no body,
//! producing the same `!fn` value a definition would.
use vstd::prelude::*;
use crate::access::str_attr;
use crate::attributes::AttrView;
use crate::attributes::AttributeValue;
use crate::builder::BuilderView;
use crate::builder::OpBuilder;
use crate::context::Context;
use crate::context::ContextView;
use crate::context::OpHandle;
use crate::context::edits::first_position;
use crate::dependency::value_name;
use crate::dependency::value_text;
use crate::dialects::print::type_names_text;
use crate::ids::OpId;
use crate::ids::TypeId;
use crate::ids::ValueId;
use crate::interfaces::Symbol;
use crate::interfaces::Visibility;
use crate::ir_formatter::IRFormatter;
use crate::text::cat3;
use crate::text::cat7;
use crate::text::same;
use crate::ty::interned;
use crate::ty::type_text;
use crate::ty::FnType;
use crate::ty::TypeView;

verus! {

/// A declaration of a function another module defines.
#[derive(Debug, Clone, Copy)]
pub struct DeclareOp(pub OpHandle);

impl ContextView {
    /// Whether a symbol can be named from outside: unless it says it is private.
    pub open spec fn visibility_of(self, op: OpId) -> Visibility {
        if self.str_attr(op, "sym_visibility"@) == Some("private"@) {
            Visibility::Private
        } else {
            Visibility::Public
        }
    }

    /// Whether a function operation names its function and produces a typed
    /// value.
    pub open spec fn function_wf(self, op: OpId) -> bool {
        &&& self.ir.op(op) is Some
        &&& self.ir.op(op)->0.results.len() > 0
        &&& self.ir.value(self.ir.op(op)->0.results[0]) is Some
        &&& self.value_sound(self.ir.op(op)->0.results[0])
        &&& self.str_attr(op, "sym_name"@) is Some
    }

    /// A declaration as it is written.
    pub open spec fn func_declare_text(self, op: OpId) -> Seq<char> {
        let value = self.ir.op(op)->0.results[0];
        let (params, ret) = self.signature_of(value)->0;
        value_name(value) + " = func.declare"@ + (if self.visibility_of(op)
            == Visibility::Private {
            " private"@
        } else {
            Seq::<char>::empty()
        }) + (" @"@ + self.str_attr(op, "sym_name"@)->0 + "("@) + self.type_names(
            params,
            params.len() as int,
        ) + ") -> "@ + (type_text(self.types, ret) + "\n"@)
    }
}

/// Whether the symbol `op` defines can be named from outside.
pub fn visibility_of(context: &Context, op: OpId) -> (r: Visibility)
    requires
        context.inv(),
    ensures
        r == context@.visibility_of(op),
{
    match str_attr(context, op, "sym_visibility") {
        Some(text) => if same(text.as_str(), "private") {
            Visibility::Private
        } else {
            Visibility::Public
        },
        None => Visibility::Public,
    }
}

impl DeclareOp {
    /// The λ value this declaration produces: what a call to it takes as callee.
    pub fn fn_value(&self, context: &Context) -> (v: ValueId)
        requires
            context.inv(),
            context@.ir.op(self.0.id) is Some,
            context@.ir.op(self.0.id)->0.results.len() > 0,
        ensures
            v == context@.ir.op(self.0.id)->0.results[0],
    {
        context.results_of(self.0.id)[0]
    }

    /// The name of the function.
    pub fn sym_name(&self, context: &Context) -> (s: String)
        requires
            context.inv(),
            context@.str_attr(self.0.id, "sym_name"@) is Some,
        ensures
            context@.str_attr(self.0.id, "sym_name"@) == Some(s@),
    {
        str_attr(context, self.0.id, "sym_name").unwrap()
    }

    /// Prints the declaration.
    pub fn custom_print(&self, context: &Context, fmt: &mut IRFormatter)
        requires
            context.inv(),
            context@.function_wf(self.0.id),
            context@.signature_of(context@.ir.op(self.0.id)->0.results[0]) is Some,
        ensures
            final(fmt)@ == old(fmt)@.written(context@.func_declare_text(self.0.id)),
    {
        let value = self.fn_value(context);
        let (params, ret) = FnType::signature_of(context, value).unwrap();
        proof {
            reveal_strlit("");
            assert(""@ =~= Seq::<char>::empty());
        }
        let visibility = match self.symbol_visibility(context) {
            Visibility::Private => " private",
            Visibility::Public => "",
        };
        let text = cat7(
            value_text(value).as_str(),
            " = func.declare",
            visibility,
            cat3(" @", self.sym_name(context).as_str(), "(").as_str(),
            type_names_text(context, &params).as_str(),
            ") -> ",
            crate::text::cat2(context.type_to_string(ret).as_str(), "\n").as_str(),
        );
        fmt.write(text.as_str());
    }
}

impl Symbol for DeclareOp {
    open spec fn defines(&self, context: ContextView) -> bool {
        context.function_wf(self.0.id)
    }

    open spec fn name_of(&self, context: ContextView) -> Seq<char> {
        context.str_attr(self.0.id, "sym_name"@)->0
    }

    open spec fn signature(&self, context: ContextView) -> Option<Seq<TypeId>> {
        match context.signature_of(context.ir.op(self.0.id)->0.results[0]) {
            Some((params, _ret)) => Some(params),
            None => None,
        }
    }

    open spec fn result_type(&self, context: ContextView) -> Option<TypeId> {
        match context.signature_of(context.ir.op(self.0.id)->0.results[0]) {
            Some((_params, ret)) => Some(ret),
            None => None,
        }
    }

    open spec fn visibility(&self, context: ContextView) -> Visibility {
        context.visibility_of(self.0.id)
    }

    open spec fn defined_here(&self, context: ContextView) -> bool {
        false
    }

    fn symbol_name(&self, context: &Context) -> (s: String) {
        self.sym_name(context)
    }

    fn symbol_signature(&self, context: &Context) -> (r: Option<Vec<TypeId>>) {
        match FnType::signature_of(context, self.fn_value(context)) {
            Some((params, _ret)) => Some(params),
            None => None,
        }
    }

    fn symbol_result_type(&self, context: &Context) -> (r: Option<TypeId>) {
        match FnType::signature_of(context, self.fn_value(context)) {
            Some((_params, ret)) => Some(ret),
            None => None,
        }
    }

    fn symbol_visibility(&self, context: &Context) -> (r: Visibility) {
        visibility_of(context, self.0.id)
    }

    fn is_definition(&self, context: &Context) -> (r: bool) {
        false
    }
}

/// What a declaration of `name`, a function of type `ty`, is built from.
pub open spec fn func_declare_view(name: Seq<char>, ty: TypeId) -> BuilderView {
    BuilderView::fresh("func"@, "declare"@).with_attr("sym_name"@, AttrView::Str(name)).with_result(
        ty,
    )
}

/// The context after the type of a function that takes `args` and gives `ret`
/// was interned.
pub open spec fn with_fn_type(context: ContextView, args: Seq<TypeId>, ret: TypeId) -> ContextView {
    ContextView { types: interned(context.types, TypeView::Fn(args, ret)), ..context }
}

/// The id that type has then.
pub open spec fn fn_type_id(context: ContextView, args: Seq<TypeId>, ret: TypeId) -> TypeId {
    TypeId(
        first_position(
            with_fn_type(context, args, ret).types,
            TypeView::Fn(args, ret),
        )->0 as u32,
    )
}

/// Stores a declaration of the function `name`.
pub fn declare_op(context: &mut Context, name: &str, ret: TypeId, args: &Vec<TypeId>) -> (op:
    DeclareOp)
    requires
        old(context).inv(),
        old(context)@.types.len() < u32::MAX,
        old(context)@.types_known(args@),
        ret.0 < old(context)@.types.len(),
        func_declare_view(name@, fn_type_id(old(context)@, args@, ret)).fits(
            with_fn_type(old(context)@, args@, ret),
        ),
    ensures
        final(context).inv(),
        final(context)@ == func_declare_view(
            name@,
            fn_type_id(old(context)@, args@, ret),
        ).built(with_fn_type(old(context)@, args@, ret)),
        op.0.id == OpId(old(context)@.ir.ops.now.len() as u32),
{
    let ty = FnType::new(context, args, ret);
    DeclareOp(
        OpBuilder::new("func", "declare").attr(
            "sym_name",
            AttributeValue::Str(name.to_owned()),
        ).result_type(ty).build(context),
    )
}

} // verus!

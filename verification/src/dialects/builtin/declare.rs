//! Declarations of functions another module defines, and addresses of symbols.
use vstd::prelude::*;
use crate::access::all_types;
use crate::access::array_attr;
use crate::access::str_attr;
use crate::access::type_attr;
use crate::access::type_items;
use crate::access::types_attr;
use crate::access::types_attr_view;
use crate::access::types_in;
use crate::attributes::AttrView;
use crate::attributes::AttributeValue;
use crate::builder::BuilderView;
use crate::builder::OpBuilder;
use crate::context::Context;
use crate::context::ContextView;
use crate::context::OpHandle;
use crate::dialects::print::type_names_text;
use crate::ids::OpId;
use crate::ids::TypeId;
use crate::ir_formatter::IRFormatter;
use crate::text::cat7;
use crate::ty::type_text;

verus! {

/// A declaration of a function another module defines.
#[derive(Debug, Clone, Copy)]
pub struct DeclareOp(pub OpHandle);

/// The address of a symbol.
#[derive(Debug, Clone, Copy)]
pub struct AddressOfOp(pub OpHandle);

impl ContextView {
    /// Whether a declaration says its name, its result and its arguments, of
    /// interned types.
    pub open spec fn declare_wf(self, op: OpId) -> bool {
        &&& self.str_attr(op, "sym_name"@) is Some
        &&& self.type_attr(op, "ret_type"@) is Some
        &&& self.type_attr(op, "ret_type"@).unwrap().0 < self.types.len()
        &&& self.array_attr(op, "arg_types"@) is Some
        &&& all_types(self.array_attr(op, "arg_types"@)->0)
        &&& self.types_known(types_in(self.array_attr(op, "arg_types"@)->0))
    }

    /// A declaration as it is written.
    pub open spec fn declare_text(self, op: OpId) -> Seq<char> {
        let args = types_in(self.array_attr(op, "arg_types"@)->0);
        "declare @"@ + self.str_attr(op, "sym_name"@)->0 + "("@ + self.type_names(
            args,
            args.len() as int,
        ) + ") -> "@ + type_text(self.types, self.type_attr(op, "ret_type"@)->0) + "\n"@
    }
}

impl DeclareOp {
    /// The name of the function.
    pub fn sym_name(&self, context: &Context) -> (s: String)
        requires
            context.inv(),
            context@.str_attr(self.0.id, "sym_name"@) is Some,
        ensures
            context@.str_attr(self.0.id, "sym_name"@) == Some(s@),
    {
        str_attr(context, self.0.id, "sym_name").unwrap()
    }

    /// The type of its result.
    pub fn ret_type(&self, context: &Context) -> (t: TypeId)
        requires
            context.inv(),
            context@.type_attr(self.0.id, "ret_type"@) is Some,
        ensures
            context@.type_attr(self.0.id, "ret_type"@) == Some(t),
    {
        type_attr(context, self.0.id, "ret_type").unwrap()
    }

    /// The types of its arguments.
    pub fn arg_types(&self, context: &Context) -> (r: Vec<TypeId>)
        requires
            context.inv(),
            context@.array_attr(self.0.id, "arg_types"@) is Some,
            all_types(context@.array_attr(self.0.id, "arg_types"@)->0),
        ensures
            r@ == types_in(context@.array_attr(self.0.id, "arg_types"@)->0),
    {
        type_items(array_attr(context, self.0.id, "arg_types").unwrap())
    }

    /// Prints the declaration.
    pub fn custom_print(&self, context: &Context, fmt: &mut IRFormatter)
        requires
            context.inv(),
            context@.declare_wf(self.0.id),
        ensures
            final(fmt)@ == old(fmt)@.written(context@.declare_text(self.0.id)),
    {
        let args = self.arg_types(context);
        let text = cat7(
            "declare @",
            self.sym_name(context).as_str(),
            "(",
            type_names_text(context, &args).as_str(),
            ") -> ",
            context.type_to_string(self.ret_type(context)).as_str(),
            "\n",
        );
        fmt.write(text.as_str());
    }
}

impl AddressOfOp {
    /// The name of the symbol.
    pub fn sym_name(&self, context: &Context) -> (s: String)
        requires
            context.inv(),
            context@.str_attr(self.0.id, "sym_name"@) is Some,
        ensures
            context@.str_attr(self.0.id, "sym_name"@) == Some(s@),
    {
        str_attr(context, self.0.id, "sym_name").unwrap()
    }
}

/// What the address of `name` is built from.
pub open spec fn addr_of_view(name: Seq<char>, result_type: TypeId) -> BuilderView {
    BuilderView::fresh("builtin"@, "addr_of"@).with_attr(
        "sym_name"@,
        AttrView::Str(name),
    ).with_result(result_type)
}

/// Stores the address of the symbol `name`.
pub fn addr_of_op(context: &mut Context, name: &str, result_type: TypeId) -> (op: AddressOfOp)
    requires
        old(context).inv(),
        addr_of_view(name@, result_type).fits(old(context)@),
    ensures
        final(context).inv(),
        final(context)@ == addr_of_view(name@, result_type).built(old(context)@),
        op.0.id == OpId(old(context)@.ir.ops.now.len() as u32),
{
    AddressOfOp(
        OpBuilder::new("builtin", "addr_of").attr(
            "sym_name",
            AttributeValue::Str(name.to_owned()),
        ).result_type(result_type).build(context),
    )
}

/// The attribute that lists `types`.
pub fn arg_types_attr(types: &Vec<TypeId>) -> (r: AttributeValue)
    ensures
        r@ == types_attr_view(types@),
{
    types_attr(types)
}

/// What a declaration of `name` is built from.
pub open spec fn declare_view(name: Seq<char>, ret: TypeId, args: Seq<TypeId>) -> BuilderView {
    BuilderView::fresh("builtin"@, "declare"@).with_attr("sym_name"@, AttrView::Str(name)).with_attr(
        "ret_type"@,
        AttrView::Type(ret),
    ).with_attr("arg_types"@, types_attr_view(args))
}

/// Stores a declaration of the function `name`.
pub fn declare_op(context: &mut Context, name: &str, ret: TypeId, args: &Vec<TypeId>) -> (op:
    DeclareOp)
    requires
        old(context).inv(),
        declare_view(name@, ret, args@).fits(old(context)@),
    ensures
        final(context).inv(),
        final(context)@ == declare_view(name@, ret, args@).built(old(context)@),
        op.0.id == OpId(old(context)@.ir.ops.now.len() as u32),
{
    DeclareOp(
        OpBuilder::new("builtin", "declare").attr(
            "sym_name",
            AttributeValue::Str(name.to_owned()),
        ).attr("ret_type", AttributeValue::Type(ret)).attr(
            "arg_types",
            arg_types_attr(args),
        ).build(context),
    )
}

} // verus!

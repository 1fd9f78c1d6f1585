//! Functions of the `builtin` dialect, the end of one, and the end of a module.
use vstd::prelude::*;
use vstd::string::*;
use crate::attributes::AttrView;
use crate::attributes::AttributeValue;
use crate::builder::BuilderView;
use crate::builder::OpBuilder;
use crate::context::Context;
use crate::context::ContextView;
use crate::context::OpHandle;
use crate::dialects::builtin::syntax::CallSyntax;
use crate::dialects::builtin::syntax::FuncSyntax;
use crate::dialects::builtin::syntax::IndirectCallSyntax;
use crate::dialects::func::func_op::param_list_text;
use crate::dialects::func::func_op::port_types_of;
use crate::dialects::func::named::enter_params;
use crate::dialects::func::named::entered;
use crate::dialects::func::named::intern_ret;
use crate::dialects::func::named::param_weights;
use crate::dialects::func::named::ret_interned;
use crate::dialects::func::named::ret_weight;
use crate::dialects::func::named::EnteredView;
use crate::ids::BlockId;
use crate::ids::OpId;
use crate::ids::RegionId;
use crate::ids::TypeId;
use crate::ids::ValueId;
use crate::interfaces::Terminator;
use crate::ir::Value;
use crate::ir_formatter::IRFormatter;
use crate::parse::scope::Scope;
use crate::parse::types::intern_types;
use crate::parse::types::interned_trees;
use crate::parse::types::weights;
use crate::text::cat2;
use crate::text::cat5;
use crate::ty::type_text;
use crate::ty::Type;
use crate::ty::TypeView;

verus! {

/// A function: a name, the type it gives, and a body whose entry takes its
/// arguments.
#[derive(Debug, Clone, Copy)]
pub struct FuncOp(pub OpHandle);

/// The end of a function.
#[derive(Debug, Clone, Copy)]
pub struct ReturnOp(pub OpHandle);

/// The end of a module.
#[derive(Debug, Clone, Copy)]
pub struct ModuleEndOp(pub OpHandle);

/// Builds a [`FuncOp`].
pub struct FuncOpBuilder(pub OpBuilder);

/// Builds a [`ReturnOp`].
pub struct ReturnOpBuilder(pub OpBuilder);

impl Terminator for ReturnOp {
    open spec fn successor_blocks(&self, context: ContextView) -> Seq<BlockId> {
        Seq::empty()
    }

    open spec fn terminates(&self, context: ContextView) -> bool {
        true
    }

    fn successors(&self, context: &Context) -> (r: Vec<BlockId>) {
        Vec::new()
    }
}

impl Terminator for ModuleEndOp {
    open spec fn successor_blocks(&self, context: ContextView) -> Seq<BlockId> {
        Seq::empty()
    }

    open spec fn terminates(&self, context: ContextView) -> bool {
        true
    }

    fn successors(&self, context: &Context) -> (r: Vec<BlockId>) {
        Vec::new()
    }
}

impl ContextView {
    /// Whether a function carries what its text needs: a body whose arguments
    /// have known types, and a name and a type where it says either.
    pub open spec fn builtin_func_wf(self, op: OpId) -> bool {
        &&& self.ir.op(op) is Some
        &&& self.ir.op(op)->0.regions.len() > 0
        &&& self.types_known(port_types_of(self.region_ports(self.ir.op(op)->0.regions[0])))
        &&& self.attr(op, "sym_name"@) is Some ==> self.str_attr(op, "sym_name"@) is Some
        &&& self.attr(op, "ret_type"@) is Some ==> self.type_attr(op, "ret_type"@) is Some
        &&& self.type_attr(op, "ret_type"@) matches Some(ty) ==> ty.0 < self.types.len()
    }

    /// The name of a function, `unknown` where it says none.
    pub open spec fn builtin_func_name(self, op: OpId) -> Seq<char> {
        match self.str_attr(op, "sym_name"@) {
            Some(name) => name,
            None => "unknown"@,
        }
    }

    /// A function as it is written, up to its body.
    pub open spec fn builtin_func_header(self, op: OpId) -> Seq<char> {
        let params = self.region_ports(self.ir.op(op)->0.regions[0]);
        "func @"@ + self.builtin_func_name(op) + "("@ + self.param_list(params, params.len() as int)
            + (")"@ + match self.type_attr(op, "ret_type"@) {
            Some(ty) => if self.types[ty.0 as int] == TypeView::Unit {
                Seq::<char>::empty()
            } else {
                " -> "@ + type_text(self.types, ty)
            },
            None => Seq::<char>::empty(),
        })
    }
}

impl FuncOp {
    /// The region that holds the body.
    pub fn body_region(&self, context: &Context) -> (r: RegionId)
        requires
            context.inv(),
            context@.ir.op(self.0.id) is Some,
            context@.ir.op(self.0.id)->0.regions.len() > 0,
        ensures
            r == context@.ir.op(self.0.id)->0.regions[0],
    {
        context.regions_of(self.0.id)[0]
    }

    /// Prints the function, its body printed as `printed`.
    pub fn custom_print(&self, context: &Context, fmt: &mut IRFormatter, printed: &str)
        requires
            context.inv(),
            context@.builtin_func_wf(self.0.id),
        ensures
            final(fmt)@ == old(fmt)@.written(context@.builtin_func_header(self.0.id)).written(
                printed@,
            ),
    {
        proof {
            reveal_strlit("");
            assert(""@ =~= Seq::<char>::empty());
        }
        let name = match context.with_attr(self.0.id, "sym_name") {
            Some(AttributeValue::Str(name)) => name.clone(),
            _ => "unknown".to_owned(),
        };
        let params = context.region_ports(self.body_region(context));
        let gives = match context.with_attr(self.0.id, "ret_type") {
            Some(AttributeValue::Type(ty)) => match context.get_type_data(*ty) {
                Type::Unit(_) => "".to_owned(),
                _ => cat2(" -> ", context.type_to_string(*ty).as_str()),
            },
            _ => "".to_owned(),
        };
        let text = cat5(
            "func @",
            name.as_str(),
            "(",
            param_list_text(context, &params).as_str(),
            cat2(")", gives.as_str()).as_str(),
        );
        fmt.write(text.as_str());
        fmt.write(printed);
    }
}

impl FuncOpBuilder {
    /// A function of nothing yet.
    pub fn new() -> (r: Self)
        ensures
            r.0@ == BuilderView::fresh("builtin"@, "func"@),
    {
        FuncOpBuilder(OpBuilder::new("builtin", "func"))
    }

    /// With the name.
    pub fn sym_name(self, name: &str) -> (r: Self)
        ensures
            r.0@ == self.0@.with_attr("sym_name"@, AttrView::Str(name@)),
    {
        FuncOpBuilder(self.0.attr("sym_name", AttributeValue::Str(name.to_owned())))
    }

    /// With the type the function gives.
    pub fn ret_type(self, ty: TypeId) -> (r: Self)
        ensures
            r.0@ == self.0@.with_attr("ret_type"@, AttrView::Type(ty)),
    {
        FuncOpBuilder(self.0.attr("ret_type", AttributeValue::Type(ty)))
    }

    /// With the body.
    pub fn body(self, region: RegionId) -> (r: Self)
        ensures
            r.0@ == self.0@.with_region(region),
    {
        FuncOpBuilder(self.0.region(region))
    }

    /// Stores the function.
    pub fn build(self, context: &mut Context) -> (op: FuncOp)
        requires
            old(context).inv(),
            self.0@.fits(old(context)@),
        ensures
            final(context).inv(),
            final(context)@ == self.0@.built(old(context)@),
            op.0.id == OpId(old(context)@.ir.ops.now.len() as u32),
            final(context)@.ir.op(op.0.id) == Some(self.0@.op(old(context)@)),
    {
        FuncOp(self.0.build(context))
    }
}

impl ReturnOpBuilder {
    /// A return of nothing.
    pub fn new() -> (r: Self)
        ensures
            r.0@ == BuilderView::fresh("builtin"@, "return"@),
    {
        ReturnOpBuilder(OpBuilder::new("builtin", "return"))
    }

    /// With the value returned.
    pub fn value(self, value: ValueId) -> (r: Self)
        ensures
            r.0@ == self.0@.with_group(seq![value]),
    {
        ReturnOpBuilder(self.0.operand(value))
    }

    /// Stores the return.
    pub fn build(self, context: &mut Context) -> (op: ReturnOp)
        requires
            old(context).inv(),
            self.0@.fits(old(context)@),
        ensures
            final(context).inv(),
            final(context)@ == self.0@.built(old(context)@),
            op.0.id == OpId(old(context)@.ir.ops.now.len() as u32),
            final(context)@.ir.op(op.0.id) == Some(self.0@.op(old(context)@)),
    {
        ReturnOp(self.0.build(context))
    }
}

impl FuncSyntax {
    /// Interns the types of the parameters and mints the parameters, then interns
    /// the type the function gives. Names stand for nothing here: the body writes
    /// values by their numbers.
    pub fn enter(&self, context: &mut Context) -> (r: (Vec<Value>, TypeId))
        requires
            old(context).inv(),
            old(context)@.types.len() + param_weights(
                self@.params,
                self@.params.len() as int,
            ) + ret_weight(self@.ret) <= u32::MAX,
            old(context)@.ir.values.now.len() + self@.params.len() <= u32::MAX,
        ensures
            final(context).inv(),
            ({
                let e = entered(
                    EnteredView { context: old(context)@, scope: Seq::empty(), args: Seq::empty() },
                    self@.params,
                    self@.params.len() as int,
                );
                let (types, ret) = ret_interned(e.context.types, self@.ret);
                final(context)@ == (ContextView { types, ..e.context }) && r.0@ == e.args && r.1
                    == ret
            }),
    {
        let mut scope = Scope::new();
        let args = enter_params(&self.params, context, &mut scope);
        let ret = intern_ret(&self.ret, context);
        (args, ret)
    }

    /// The builder of the function, over the body that was read.
    pub fn finish(&self, ret: TypeId, body: RegionId) -> (r: FuncOpBuilder)
        ensures
            r.0@ == BuilderView::fresh("builtin"@, "func"@).with_attr(
                "sym_name"@,
                AttrView::Str(self@.name),
            ).with_attr("ret_type"@, AttrView::Type(ret)).with_region(body),
    {
        FuncOpBuilder::new().sym_name(self.name.as_str()).ret_type(ret).body(body)
    }
}

impl CallSyntax {
    /// The builder of the call.
    pub fn finish(self, context: &mut Context) -> (r: OpBuilder)
        requires
            old(context).inv(),
            old(context)@.types.len() + weights(self@.arg_types, self@.arg_types.len())
                + ret_weight(self@.ret) <= u32::MAX,
        ensures
            final(context).inv(),
            ({
                let (types, ret) = ret_interned(
                    interned_trees(
                        old(context)@.types,
                        self@.arg_types,
                        self@.arg_types.len(),
                    ).0,
                    self@.ret,
                );
                &&& final(context)@ == (ContextView { types, ..old(context)@ })
                &&& r@ == BuilderView::fresh("builtin"@, "call"@).with_group(
                    self@.args,
                ).with_segments().with_attr("callee"@, AttrView::Str(self@.callee)).with_result(ret)
            }),
    {
        let _types = intern_types(&self.arg_types, context);
        let ret = intern_ret(&self.ret, context);
        OpBuilder::new("builtin", "call").operands(self.args).segments().attr(
            "callee",
            AttributeValue::Str(self.callee),
        ).result_type(ret)
    }
}

impl IndirectCallSyntax {
    /// The builder of the call.
    pub fn finish(self, context: &mut Context) -> (r: OpBuilder)
        requires
            old(context).inv(),
            old(context)@.types.len() + weights(self@.arg_types, self@.arg_types.len())
                + ret_weight(self@.ret) <= u32::MAX,
        ensures
            final(context).inv(),
            ({
                let (types, ret) = ret_interned(
                    interned_trees(
                        old(context)@.types,
                        self@.arg_types,
                        self@.arg_types.len(),
                    ).0,
                    self@.ret,
                );
                &&& final(context)@ == (ContextView { types, ..old(context)@ })
                &&& r@ == BuilderView::fresh("builtin"@, "indirect_call"@).with_group(
                    seq![self@.callee],
                ).with_group(self@.args).with_segments().with_result(ret)
            }),
    {
        let _types = intern_types(&self.arg_types, context);
        let ret = intern_ret(&self.ret, context);
        OpBuilder::new("builtin", "indirect_call").operand(self.callee).operands(
            self.args,
        ).segments().result_type(ret)
    }
}

} // verus!

//! From the text of functions, calls and declarations to the operations they
//! name.
use vstd::prelude::*;
use vstd::string::*;
use crate::attributes::AttrView;
use crate::attributes::AttributeValue;
use crate::builder::BuilderView;
use crate::builder::OpBuilder;
use crate::context::Context;
use crate::context::ContextView;
use crate::dialects::func::call::CallOpBuilder;
use crate::dialects::func::declare::fn_type_id;
use crate::dialects::func::declare::func_declare_view;
use crate::dialects::func::declare::with_fn_type;
use crate::dialects::func::func_op::data_ports;
use crate::dialects::func::func_op::port_types_of;
use crate::dialects::func::func_op::with_entry_sp;
use crate::dialects::func::func_op::with_implicit;
use crate::dialects::func::func_op::FuncOpBuilder;
use crate::dialects::func::syntax::param_trees;
use crate::dialects::func::syntax::CallSyntax;
use crate::dialects::func::syntax::CallTree;
use crate::dialects::func::syntax::DeclareSyntax;
use crate::dialects::func::syntax::FuncSyntax;
use crate::dialects::func::syntax::FuncTree;
use crate::dialects::func::syntax::ParamSyntax;
use crate::error::Error;
use crate::error::ErrorView;
use crate::ids::RegionId;
use crate::ids::TypeId;
use crate::ids::ValueId;
use crate::ir::Value;
use crate::parse::scope::all_bound;
use crate::parse::scope::bound_in;
use crate::parse::scope::spelled;
use crate::parse::scope::Scope;
use crate::parse::types::intern_types;
use crate::parse::types::interned_tree;
use crate::parse::types::interned_trees;
use crate::parse::types::put;
use crate::parse::types::weight;
use crate::parse::types::weights;
use crate::parse::types::TypeSyntax;
use crate::parse::types::TypeTree;
use crate::ty::FnType;
use crate::ty::Type;
use crate::ty::TypeView;
use crate::ty::UnitType;
use crate::ty::VarArgsType;

verus! {

/// Where entering a function has led: the context with the parameter types
/// interned and the parameters minted, what the names stand for, and the
/// parameters.
pub ghost struct EnteredView {
    pub context: ContextView,
    pub scope: Seq<(Seq<char>, ValueId)>,
    pub args: Seq<Value>,
}

/// Enters the first `n` of `params` in order.
pub open spec fn entered(start: EnteredView, params: Seq<(Seq<char>, TypeTree)>, n: int) -> EnteredView
    decreases n,
{
    if n <= 0 {
        start
    } else {
        let e = entered(start, params, n - 1);
        let (types, ty) = interned_tree(e.context.types, params[n - 1].1);
        let id = ValueId(e.context.ir.values.now.len() as u32);
        EnteredView {
            context: (ContextView { types, ..e.context }).with_value(ty, None),
            scope: e.scope.push((params[n - 1].0, id)),
            args: e.args.push(Value { id, ty, defining_op: None }),
        }
    }
}

/// How many types the first `n` of `params` are made from.
pub open spec fn param_weights(params: Seq<(Seq<char>, TypeTree)>, n: int) -> nat
    decreases n,
{
    if n <= 0 {
        0
    } else {
        param_weights(params, n - 1) + weight(params[n - 1].1)
    }
}

proof fn param_weights_grow(params: Seq<(Seq<char>, TypeTree)>, n: int, m: int)
    requires
        0 <= n <= m,
    ensures
        param_weights(params, n) <= param_weights(params, m),
    decreases m - n,
{
    if n < m {
        param_weights_grow(params, n, m - 1);
    }
}

/// The table after the type a function gives was interned, and its id: the unit
/// type where none is written.
pub open spec fn ret_interned(types: Seq<TypeView>, ret: Option<TypeTree>) -> (
    Seq<TypeView>,
    TypeId,
) {
    match ret {
        Some(t) => interned_tree(types, t),
        None => put(types, TypeView::Unit),
    }
}

/// How many types the type a function gives is made from.
pub open spec fn ret_weight(ret: Option<TypeTree>) -> nat {
    match ret {
        Some(t) => weight(t),
        None => 1,
    }
}

/// What a function's body is entered on.
pub struct FuncEntry {
    pub args: Vec<Value>,
    pub ret: TypeId,
    pub entry_sp: Option<ValueId>,
}

/// Interns the type a function gives: the unit type where none is written.
pub fn intern_ret(ret: &Option<TypeSyntax>, context: &mut Context) -> (id: TypeId)
    requires
        old(context).inv(),
        old(context)@.types.len() + ret_weight(crate::parse::lists::optional_tree(*ret))
            <= u32::MAX,
    ensures
        final(context).inv(),
        ({
            let (types, ty) = ret_interned(
                old(context)@.types,
                crate::parse::lists::optional_tree(*ret),
            );
            final(context)@ == (ContextView { types, ..old(context)@ }) && id == ty
        }),
        id.0 < final(context)@.types.len(),
        old(context)@.types.len() <= final(context)@.types.len(),
{
    match ret {
        Some(t) => t.intern(context),
        None => context.get_type_id(Type::Unit(UnitType)),
    }
}

/// The table and the parameter types a function's own type is made from: its
/// parameters without those the ABI supplies, and the type that stands for
/// further arguments.
pub open spec fn public_types(types: Seq<TypeView>, f: FuncTree, args: Seq<Value>) -> (
    Seq<TypeView>,
    Seq<TypeId>,
) {
    let implicit: nat = match f.clauses.implicit_arguments {
        Some(count) => count,
        None => 0,
    };
    let public = if implicit <= args.len() {
        (args.len() - implicit) as int
    } else {
        0
    };
    let params = port_types_of(args.take(public));
    if f.params.variadic {
        let (types, id) = put(types, TypeView::VarArgs);
        (types, params.push(id))
    } else {
        (types, params)
    }
}

/// What the builder of a function carries, over the body `body` of a context.
pub open spec fn func_view(
    context: ContextView,
    f: FuncTree,
    ret: TypeId,
    ty: TypeId,
    entry_sp: Option<ValueId>,
    body: RegionId,
) -> BuilderView {
    let params = Some(data_ports(context.region_ports(body)));
    let b = BuilderView::fresh("func"@, "func"@).with_attr(
        "sym_name"@,
        AttrView::Str(f.name),
    ).with_attr("ret_type"@, AttrView::Type(ret)).with_result(ty).with_region(body);
    let b = if f.clauses.result_address {
        b.with_attr("result_address"@, AttrView::Bool(true))
    } else {
        b
    };
    let b = match f.clauses.implicit_arguments {
        Some(count) => with_implicit(b, params, count),
        None => b,
    };
    let b = match entry_sp {
        Some(argument) => with_entry_sp(b, params, argument),
        None => b,
    };
    let b = with_optional(b, "argument_alignments"@, f.clauses.argument_alignments);
    let b = with_optional(b, "stack_arguments"@, f.clauses.stack_arguments);
    let b = with_optional(b, "noalias"@, f.clauses.noalias);
    if f.private {
        b.with_attr("sym_visibility"@, AttrView::Str("private"@))
    } else {
        b
    }
}

/// With an attribute that may be absent.
pub open spec fn with_optional(b: BuilderView, name: Seq<char>, value: Option<AttrView>) -> BuilderView {
    match value {
        Some(value) => b.with_attr(name, value),
        None => b,
    }
}

fn put_optional(b: FuncOpBuilder, name: &str, value: &Option<AttributeValue>) -> (r: FuncOpBuilder)
    ensures
        r.op@ == with_optional(b.op@, name@, crate::parse::attrs::optional_attr(*value)),
        r.body == b.body,
{
    match value {
        Some(value) => b.attr(name, value.copy()),
        None => b,
    }
}

/// Interns the types of the parameters and mints the parameters under their
/// names.
pub fn enter_params(list: &Vec<ParamSyntax>, context: &mut Context, scope: &mut Scope) -> (args:
    Vec<Value>)
    requires
        old(context).inv(),
        old(context)@.types.len() + param_weights(param_trees(list@), list@.len() as int)
            <= u32::MAX,
        old(context)@.ir.values.now.len() + list@.len() <= u32::MAX,
    ensures
        final(context).inv(),
        ({
            let e = entered(
                EnteredView { context: old(context)@, scope: old(scope)@, args: Seq::empty() },
                param_trees(list@),
                list@.len() as int,
            );
            final(context)@ == e.context && final(scope)@ == e.scope && args@ == e.args
        }),
        final(context)@.types.len() <= old(context)@.types.len() + param_weights(
            param_trees(list@),
            list@.len() as int,
        ),
{
    let ghost start = EnteredView { context: context@, scope: scope@, args: Seq::empty() };
    let ghost params = param_trees(list@);
    let mut args: Vec<Value> = Vec::new();
    let mut i: usize = 0;
    while i < list.len()
        invariant
            i <= list.len(),
            context.inv(),
            params == param_trees(list@),
            params.len() == list.len(),
            start == (EnteredView {
                context: old(context)@,
                scope: old(scope)@,
                args: Seq::empty(),
            }),
            start.context.types.len() + param_weights(params, params.len() as int) <= u32::MAX,
            context@.types.len() <= start.context.types.len() + param_weights(params, i as int),
            context@.ir.values.now.len() + (params.len() - i) <= u32::MAX,
            entered(start, params, i as int) == (EnteredView {
                context: context@,
                scope: scope@,
                args: args@,
            }),
        decreases list.len() - i,
    {
        assert(params[i as int] == list@[i as int]@);
        proof {
            param_weights_grow(params, i + 1, params.len() as int);
        }
        let ty = list[i].ty.intern(context);
        let value = context.create_value(ty, None);
        scope.define_value(list[i].name.as_str(), value.id);
        args.push(value);
        i += 1;
    }
    args
}

impl FuncSyntax {
    /// Interns the types of the parameters and mints the parameters under their
    /// names, then interns the type the function gives. An error where the stack
    /// pointer at entry names nothing.
    pub fn enter(&self, context: &mut Context, scope: &mut Scope) -> (r: Result<FuncEntry, Error>)
        requires
            old(context).inv(),
            old(context)@.types.len() + param_weights(
                self@.params.params,
                self@.params.params.len() as int,
            ) + ret_weight(self@.ret) <= u32::MAX,
            old(context)@.ir.values.now.len() + self@.params.params.len() <= u32::MAX,
        ensures
            final(context).inv(),
            ({
                let e = entered(
                    EnteredView {
                        context: old(context)@,
                        scope: old(scope)@,
                        args: Seq::empty(),
                    },
                    self@.params.params,
                    self@.params.params.len() as int,
                );
                let (types, ret) = ret_interned(e.context.types, self@.ret);
                &&& final(context)@ == (ContextView { types, ..e.context })
                &&& final(scope)@ == e.scope
                &&& match self@.clauses.entry_sp {
                    None => r is Ok && r->Ok_0.args@ == e.args && r->Ok_0.ret == ret
                        && r->Ok_0.entry_sp is None,
                    Some(name) => match bound_in(e.scope, name) {
                        Some(value) => r is Ok && r->Ok_0.args@ == e.args && r->Ok_0.ret == ret
                            && r->Ok_0.entry_sp == Some(value),
                        None => r is Err && r->Err_0@ == ErrorView::UnknownValueRef(name),
                    },
                }
            }),
    {
        let args = enter_params(&self.params.params, context, scope);
        let ret = intern_ret(&self.ret, context);
        let entry_sp = match &self.clauses.entry_sp {
            None => None,
            Some(name) => match scope.resolve_value(name.as_str()) {
                Ok(value) => Some(value),
                Err(e) => {
                    return Err(e);
                },
            },
        };
        Ok(FuncEntry { args, ret, entry_sp })
    }

    /// The builder of the function, over the body that was read on its entry.
    pub fn finish(&self, context: &mut Context, entry: &FuncEntry, body: RegionId) -> (r:
        FuncOpBuilder)
        requires
            old(context).inv(),
            old(context)@.types.len() + 2 <= u32::MAX,
            old(context)@.ir.region(body) is Some,
            old(context)@.region_sound(body),
            old(context)@.types_known(port_types_of(entry.args@)),
            entry.ret.0 < old(context)@.types.len(),
            self@.clauses.implicit_arguments matches Some(count) ==> count <= usize::MAX,
        ensures
            final(context).inv(),
            ({
                let (types, params) = public_types(old(context)@.types, self@, entry.args@);
                let with_params = ContextView { types, ..old(context)@ };
                &&& final(context)@ == with_fn_type(with_params, params, entry.ret)
                &&& r.op@ == func_view(
                    final(context)@,
                    self@,
                    entry.ret,
                    fn_type_id(with_params, params, entry.ret),
                    entry.entry_sp,
                    body,
                )
                &&& r.body == Some(body)
            }),
    {
        let implicit: usize = match self.clauses.implicit_arguments {
            Some(count) => count as usize,
            None => 0,
        };
        let public: usize = if implicit <= entry.args.len() {
            entry.args.len() - implicit
        } else {
            0
        };
        let mut params: Vec<TypeId> = Vec::new();
        let mut i: usize = 0;
        while i < public
            invariant
                i <= public <= entry.args.len(),
                params@ == port_types_of(entry.args@.take(i as int)),
            decreases public - i,
        {
            params.push(entry.args[i].ty);
            assert(params@ =~= port_types_of(entry.args@.take(i + 1)));
            i += 1;
        }
        assert forall|k: int| 0 <= k < params@.len() implies (#[trigger] params@[k]).0
            < old(context)@.types.len() by {
            assert(port_types_of(entry.args@)[k] == params@[k]);
        }
        if self.params.variadic {
            let id = context.get_type_id(Type::VarArgs(VarArgsType));
            params.push(id);
        }
        let ty = FnType::new(context, &params, entry.ret);
        let mut b = FuncOpBuilder::new().sym_name(self.name.as_str()).ret_type(
            entry.ret,
        ).result_type(ty).body(body);
        if self.clauses.result_address {
            b = b.result_address();
        }
        if let Some(count) = self.clauses.implicit_arguments {
            b = b.implicit_arguments(context, count as usize);
        }
        if let Some(argument) = entry.entry_sp {
            b = b.entry_sp(context, argument);
        }
        b = put_optional(b, "argument_alignments", &self.clauses.argument_alignments);
        b = put_optional(b, "stack_arguments", &self.clauses.stack_arguments);
        b = put_optional(b, "noalias", &self.clauses.noalias);
        if self.private {
            b = b.attr("sym_visibility", AttributeValue::Str("private".to_owned()));
        }
        b
    }
}

/// What the builder of a call carries.
pub open spec fn call_view(
    c: CallTree,
    callee: ValueId,
    args: Seq<ValueId>,
    deps: Seq<ValueId>,
    ret: TypeId,
) -> BuilderView {
    let b = BuilderView::fresh("func"@, "call"@).with_group(seq![callee]).with_group(
        args,
    ).with_segments().with_result(ret).with_deps(deps);
    let b = if c.result_address {
        b.with_attr("result_address"@, AttrView::Bool(true))
    } else {
        b
    };
    let b = match c.symbol {
        Some(name) => b.with_attr("callee"@, AttrView::Str(name)),
        None => b,
    };
    with_optional(b, "argument_alignments"@, c.argument_alignments)
}

/// The table after the types a call spells were interned, and the id of the type
/// it gives.
pub open spec fn call_types(types: Seq<TypeView>, c: CallTree) -> (Seq<TypeView>, TypeId) {
    ret_interned(interned_trees(types, c.arg_types, c.arg_types.len()).0, c.ret)
}

impl CallSyntax {
    /// The builder of the call, with its names resolved. An error at the first
    /// name that stands for nothing: the callee, the arguments, then what the
    /// call observes.
    pub fn finish(&self, context: &mut Context, scope: &Scope) -> (r: Result<CallOpBuilder, Error>)
        requires
            old(context).inv(),
            old(context)@.types.len() + weights(self@.arg_types, self@.arg_types.len())
                + ret_weight(self@.ret) <= u32::MAX,
        ensures
            final(context).inv(),
            ({
                let (types, ret) = call_types(old(context)@.types, self@);
                &&& final(context)@ == (ContextView { types, ..old(context)@ })
                &&& match bound_in(scope@, self@.callee) {
                    None => r is Err && r->Err_0@ == ErrorView::UnknownValueRef(self@.callee),
                    Some(callee) => match all_bound(scope@, self@.args) {
                        Err(name) => r is Err && r->Err_0@ == ErrorView::UnknownValueRef(name),
                        Ok(args) => match all_bound(scope@, self@.deps) {
                            Err(name) => r is Err && r->Err_0@ == ErrorView::UnknownValueRef(name),
                            Ok(deps) => r is Ok && r->Ok_0.0@ == call_view(
                                self@,
                                callee,
                                args,
                                deps,
                                ret,
                            ),
                        },
                    },
                }
            }),
    {
        let _types = intern_types(&self.arg_types, context);
        let ret = intern_ret(&self.ret, context);
        let callee = match scope.resolve_value(self.callee.as_str()) {
            Ok(callee) => callee,
            Err(e) => {
                return Err(e);
            },
        };
        let args = match scope.resolve_values(&self.args) {
            Ok(args) => args,
            Err(e) => {
                return Err(e);
            },
        };
        let deps = match scope.resolve_values(&self.deps) {
            Ok(deps) => deps,
            Err(e) => {
                return Err(e);
            },
        };
        let built = CallOpBuilder::new().callee(callee).args(args).result_type(ret);
        let mut b = CallOpBuilder(built.0.dep_operands(deps));
        if self.result_address {
            b = b.result_address();
        }
        if let Some(name) = &self.symbol {
            b = b.attr("callee", AttributeValue::Str(name.clone()));
        }
        if let Some(value) = &self.argument_alignments {
            b = b.attr("argument_alignments", value.copy());
        }
        Ok(b)
    }
}

impl DeclareSyntax {
    /// The builder of the declaration.
    pub fn finish(&self, context: &mut Context) -> (r: OpBuilder)
        requires
            old(context).inv(),
            old(context)@.types.len() + weights(self@.params, self@.params.len()) + weight(
                self@.ret,
            ) < u32::MAX,
        ensures
            final(context).inv(),
            ({
                let (types, params) = interned_trees(
                    old(context)@.types,
                    self@.params,
                    self@.params.len(),
                );
                let (types, ret) = interned_tree(types, self@.ret);
                let spelled = ContextView { types, ..old(context)@ };
                let declared = func_declare_view(self@.name, fn_type_id(spelled, params, ret));
                &&& final(context)@ == with_fn_type(spelled, params, ret)
                &&& r@ == if self@.private {
                    declared.with_attr("sym_visibility"@, AttrView::Str("private"@))
                } else {
                    declared
                }
            }),
    {
        let params = intern_types(&self.params, context);
        let ret = self.ret.intern(context);
        let ty = FnType::new(context, &params, ret);
        let b = OpBuilder::new("func", "declare").attr(
            "sym_name",
            AttributeValue::Str(self.name.clone()),
        ).result_type(ty);
        if self.private {
            b.attr("sym_visibility", AttributeValue::Str("private".to_owned()))
        } else {
            b
        }
    }
}

} // verus!

//! Function types: what a function takes and what it gives.
use vstd::prelude::*;
use crate::context::Context;
use crate::context::ContextView;
use crate::context::edits::first_position;
use crate::dialects::print::type_names_text;
use crate::ids::TypeId;
use crate::ids::ValueId;
use crate::ir::copy_list;
use crate::text::cat5;
use crate::ty::interned;
use crate::ty::type_text;
use crate::ty::FnType;
use crate::ty::Type;
use crate::ty::TypeView;

verus! {

impl ContextView {
    /// The parameter and return types of `value`, when it is a function value.
    pub open spec fn signature_of(self, value: ValueId) -> Option<(Seq<TypeId>, TypeId)> {
        match self.types[self.type_of(value).0 as int] {
            TypeView::Fn(params, ret) => Some((params, ret)),
            _ => None,
        }
    }

    /// Whether `params` ends in a type that stands for any further arguments.
    pub open spec fn variadic(self, params: Seq<TypeId>) -> bool {
        params.len() > 0 && self.types[params.last().0 as int] == TypeView::VarArgs
    }

    /// The type of a function that takes `params` and gives `ret`, as it stands
    /// in the text.
    pub open spec fn fn_text(self, params: Seq<TypeId>, ret: TypeId) -> Seq<char> {
        "!fn<("@ + self.type_names(params, params.len() as int) + ") -> "@ + type_text(
            self.types,
            ret,
        ) + ">"@
    }

    /// Whether a function that takes `params` can be handed arguments of the
    /// types `args`: one per parameter, and any further ones where the last
    /// parameter stands for them.
    pub open spec fn accepts(self, params: Seq<TypeId>, args: Seq<TypeId>) -> bool {
        if self.variadic(params) {
            args.len() >= params.len() - 1 && args.take(params.len() - 1) == params.drop_last()
        } else {
            args == params
        }
    }
}

impl FnType {
    /// The type of a function that takes `params` and gives `ret`.
    pub fn new(context: &mut Context, params: &Vec<TypeId>, ret: TypeId) -> (id: TypeId)
        requires
            old(context).inv(),
            old(context)@.types.len() < u32::MAX,
            old(context)@.types_known(params@),
            ret.0 < old(context)@.types.len(),
        ensures
            final(context).inv(),
            final(context)@ == (ContextView {
                types: interned(old(context)@.types, TypeView::Fn(params@, ret)),
                ..old(context)@
            }),
            id.0 < final(context)@.types.len(),
            final(context)@.types[id.0 as int] == TypeView::Fn(params@, ret),
            first_position(final(context)@.types, TypeView::Fn(params@, ret)) == Some(id.0 as int),
    {
        context.get_type_id(Type::Fn(FnType { params: copy_list(params), ret }))
    }

    /// What the function takes.
    pub fn params(&self) -> (r: Vec<TypeId>)
        ensures
            r@ == self.params@,
    {
        copy_list(&self.params)
    }

    /// What the function gives.
    pub fn ret(&self) -> (r: TypeId)
        ensures
            r == self.ret,
    {
        self.ret
    }

    /// The parameter and return types of `value`, when it is a function value.
    pub fn signature_of(context: &Context, value: ValueId) -> (r: Option<(Vec<TypeId>, TypeId)>)
        requires
            context.inv(),
            context@.ir.value(value) is Some,
            context@.value_sound(value),
        ensures
            match r {
                Some((params, ret)) => context@.signature_of(value) == Some((params@, ret))
                    && context@.types_known(params@) && ret.0 < context@.types.len(),
                None => context@.signature_of(value) is None,
            },
    {
        let ty = context.get_value(value).ty;
        proof {
            context.inv_wf();
            assert(context@.types[ty.0 as int].made_below(ty.0 as int));
        }
        match context.get_type_data(ty) {
            Type::Fn(signature) => Some((signature.params(), signature.ret())),
            _ => None,
        }
    }

    /// Whether the signature accepts any number of further arguments.
    pub fn is_variadic(&self, context: &Context) -> (r: bool)
        requires
            context.inv(),
            context@.types_known(self.params@),
        ensures
            r == context@.variadic(self.params@),
    {
        variadic(context, &self.params)
    }
}

/// Whether `params` ends in a type that stands for any further arguments.
pub fn variadic(context: &Context, params: &Vec<TypeId>) -> (r: bool)
    requires
        context.inv(),
        context@.types_known(params@),
    ensures
        r == context@.variadic(params@),
{
    if params.len() == 0 {
        return false;
    }
    let last = params[params.len() - 1];
    match context.get_type_data(last) {
        Type::VarArgs(_) => true,
        _ => false,
    }
}

/// The type of a function that takes `params` and gives `ret`, as it stands in
/// the text.
pub fn fn_text(context: &Context, params: &Vec<TypeId>, ret: TypeId) -> (s: String)
    requires
        context.inv(),
        context@.types_known(params@),
        ret.0 < context@.types.len(),
    ensures
        s@ == context@.fn_text(params@, ret),
{
    cat5(
        "!fn<(",
        type_names_text(context, params).as_str(),
        ") -> ",
        context.type_to_string(ret).as_str(),
        ">",
    )
}

/// Whether the first `n` of `a` and `b` are the same.
fn same_start(a: &Vec<TypeId>, b: &Vec<TypeId>, n: usize) -> (r: bool)
    requires
        n <= a.len(),
        n <= b.len(),
    ensures
        r == (a@.take(n as int) == b@.take(n as int)),
{
    let mut i: usize = 0;
    while i < n
        invariant
            i <= n,
            n <= a.len(),
            n <= b.len(),
            forall|k: int| 0 <= k < i ==> a@[k] == b@[k],
        decreases n - i,
    {
        if a[i] != b[i] {
            assert(a@.take(n as int)[i as int] != b@.take(n as int)[i as int]);
            return false;
        }
        i += 1;
    }
    assert(a@.take(n as int) =~= b@.take(n as int));
    true
}

/// Whether two lists of types are the same.
pub fn same_types(a: &Vec<TypeId>, b: &Vec<TypeId>) -> (r: bool)
    ensures
        r == (a@ == b@),
{
    if a.len() != b.len() {
        return false;
    }
    assert(a@.take(a.len() as int) =~= a@);
    assert(b@.take(b.len() as int) =~= b@);
    same_start(a, b, a.len())
}

/// Whether a function that takes `params` can be handed arguments of the types
/// `args`.
pub fn signature_accepts(context: &Context, params: &Vec<TypeId>, args: &Vec<TypeId>) -> (r: bool)
    requires
        context.inv(),
        context@.types_known(params@),
    ensures
        r == context@.accepts(params@, args@),
{
    if variadic(context, params) {
        let fixed: usize = params.len() - 1;
        assert(params@.take(fixed as int) =~= params@.drop_last());
        args.len() >= fixed && same_start(args, params, fixed)
    } else {
        same_types(args, params)
    }
}

/// The text of an interned function type is the text of its parts.
pub proof fn interned_fn_text(context: ContextView, ty: TypeId, params: Seq<TypeId>, ret: TypeId)
    requires
        ty.0 < context.types.len(),
        context.types[ty.0 as int] == TypeView::Fn(params, ret),
        context.types[ty.0 as int].made_below(ty.0 as int),
    ensures
        type_text(context.types, ty) == context.fn_text(params, ret),
{
    reveal_strlit("!");
    reveal_strlit("fn<(");
    reveal_strlit("!fn<(");
    names_are_listed(context, ty, params, params.len() as int);
    let list = crate::ty::type_list(context.types, ty, params, params.len());
    assert("!"@ + (Seq::<char>::empty() + ("fn<("@ + list + ") -> "@ + type_text(context.types, ret)
        + ">"@)) =~= "!fn<("@ + list + ") -> "@ + type_text(context.types, ret) + ">"@);
    assert("!"@ + Seq::<char>::empty() + crate::ty::type_body(context.types, ty) =~= context.fn_text(
        params,
        ret,
    ));
}

proof fn names_are_listed(context: ContextView, owner: TypeId, list: Seq<TypeId>, n: int)
    requires
        0 <= n <= list.len(),
        forall|i: int| 0 <= i < list.len() ==> (#[trigger] list[i]).0 < owner.0,
    ensures
        crate::ty::type_list(context.types, owner, list, n as nat) == context.type_names(list, n),
    decreases n,
{
    if n > 1 {
        names_are_listed(context, owner, list, n - 1);
    }
}

} // verus!

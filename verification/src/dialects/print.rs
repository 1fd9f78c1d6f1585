//! Pieces of text operations share.
use vstd::prelude::*;
use crate::context::Context;
use crate::context::ContextView;
use crate::dependency::value_list;
use crate::dependency::value_list_text;
use crate::ids::TypeId;
use crate::ids::ValueId;
use crate::text::cat5;
use crate::ty::type_text;

verus! {

impl ContextView {
    /// Whether every one of `values` is live and of an interned type.
    pub open spec fn values_typed(self, values: Seq<ValueId>) -> bool {
        forall|i: int|
            0 <= i < values.len() ==> self.ir.value(#[trigger] values[i]) is Some
                && self.value_sound(values[i])
    }

    /// Whether every one of `types` is interned.
    pub open spec fn types_known(self, types: Seq<TypeId>) -> bool {
        forall|i: int| 0 <= i < types.len() ==> (#[trigger] types[i]).0 < self.types.len()
    }

    /// The types of `values`.
    pub open spec fn types_of(self, values: Seq<ValueId>) -> Seq<TypeId> {
        values.map_values(|v: ValueId| self.type_of(v))
    }

    /// The first `n` of `types`, separated by commas.
    pub open spec fn type_names(self, types: Seq<TypeId>, n: int) -> Seq<char>
        decreases n,
    {
        if n <= 0 {
            Seq::empty()
        } else if n == 1 {
            type_text(self.types, types[0])
        } else {
            self.type_names(types, n - 1) + ", "@ + type_text(self.types, types[n - 1])
        }
    }

    /// Arguments with their types in brackets, written `(%1, %2 : !i32, !i32)`.
    pub open spec fn typed_args(self, args: Seq<ValueId>) -> Seq<char> {
        if args.len() == 0 {
            "()"@
        } else {
            "("@ + value_list(args) + " : "@ + self.type_names(
                self.types_of(args),
                args.len() as int,
            ) + ")"@
        }
    }
}

/// `types`, separated by commas.
pub fn type_names_text(context: &Context, types: &Vec<TypeId>) -> (s: String)
    requires
        context.inv(),
        context@.types_known(types@),
    ensures
        s@ == context@.type_names(types@, types@.len() as int),
{
    let mut s = String::new();
    assert(s@ =~= Seq::empty());
    let mut i: usize = 0;
    while i < types.len()
        invariant
            context.inv(),
            context@.types_known(types@),
            i <= types.len(),
            s@ == context@.type_names(types@, i as int),
        decreases types.len() - i,
    {
        let ghost before = s@;
        let text = context.type_to_string(types[i]);
        if i > 0 {
            s.append(", ");
            s.append(text.as_str());
            assert(s@ =~= before + ", "@ + text@);
        } else {
            s.append(text.as_str());
            assert(s@ =~= text@);
        }
        i += 1;
    }
    s
}

/// The types of `values`.
pub fn types_of(context: &Context, values: &Vec<ValueId>) -> (r: Vec<TypeId>)
    requires
        context.inv(),
        context@.values_typed(values@),
    ensures
        r@ == context@.types_of(values@),
        context@.types_known(r@),
{
    let mut r: Vec<TypeId> = Vec::new();
    let mut i: usize = 0;
    while i < values.len()
        invariant
            context.inv(),
            context@.values_typed(values@),
            i <= values.len(),
            r.len() == i,
            forall|k: int| 0 <= k < i ==> (#[trigger] r@[k]) == context@.type_of(values@[k]),
            context@.types_known(r@),
        decreases values.len() - i,
    {
        assert(context@.ir.value(values@[i as int]) is Some);
        r.push(context.get_value(values[i]).ty);
        i += 1;
    }
    assert(r@ =~= context@.types_of(values@));
    r
}

/// Arguments with their types in brackets.
pub fn typed_args_text(context: &Context, args: &Vec<ValueId>) -> (s: String)
    requires
        context.inv(),
        context@.values_typed(args@),
    ensures
        s@ == context@.typed_args(args@),
{
    if args.len() == 0 {
        return "()".to_owned();
    }
    let types = types_of(context, args);
    let names = type_names_text(context, &types);
    cat5("(", value_list_text(args.as_slice()).as_str(), " : ", names.as_str(), ")")
}

/// The text of the type of a live value.
pub fn type_of_text(context: &Context, value: ValueId) -> (s: String)
    requires
        context.inv(),
        context@.ir.value(value) is Some,
        context@.value_sound(value),
    ensures
        s@ == type_text(context@.types, context@.type_of(value)),
{
    context.type_to_string(context.get_value(value).ty)
}

} // verus!

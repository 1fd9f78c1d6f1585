//! Reading the attributes of an operation as what they hold.
use vstd::prelude::*;
use crate::attributes::attr_view;
use crate::attributes::attr_views;
use crate::attributes::AttrView;
use crate::attributes::AttributeValue;
use crate::context::Context;
use crate::context::ContextView;
use crate::ids::BlockId;
use crate::ids::OpId;
use crate::ids::TypeId;

verus! {

impl ContextView {
    /// The unsigned attribute `name` of `op`.
    pub open spec fn uint_attr(self, op: OpId, name: Seq<char>) -> Option<nat> {
        match self.attr(op, name) {
            Some(AttrView::UInt(value)) => Some(value),
            _ => None,
        }
    }

    /// The signed attribute `name` of `op`.
    pub open spec fn int_attr(self, op: OpId, name: Seq<char>) -> Option<int> {
        match self.attr(op, name) {
            Some(AttrView::Int(value)) => Some(value),
            _ => None,
        }
    }

    /// The string attribute `name` of `op`.
    pub open spec fn str_attr(self, op: OpId, name: Seq<char>) -> Option<Seq<char>> {
        match self.attr(op, name) {
            Some(AttrView::Str(value)) => Some(value),
            _ => None,
        }
    }

    /// Whether the flag `name` of `op` is set.
    pub open spec fn flag_attr(self, op: OpId, name: Seq<char>) -> bool {
        self.attr(op, name) == Some(AttrView::Bool(true))
    }

    /// The block the attribute `name` of `op` names.
    pub open spec fn block_ref_attr(self, op: OpId, name: Seq<char>) -> Option<BlockId> {
        match self.attr(op, name) {
            Some(AttrView::Block(block)) => Some(block),
            _ => None,
        }
    }

    /// The type the attribute `name` of `op` names.
    pub open spec fn type_attr(self, op: OpId, name: Seq<char>) -> Option<TypeId> {
        match self.attr(op, name) {
            Some(AttrView::Type(ty)) => Some(ty),
            _ => None,
        }
    }

    /// The array attribute `name` of `op`.
    pub open spec fn array_attr(self, op: OpId, name: Seq<char>) -> Option<Seq<AttrView>> {
        match self.attr(op, name) {
            Some(AttrView::Array(items)) => Some(items),
            _ => None,
        }
    }
}

/// The unsigned attribute `name` of `op`.
pub fn uint_attr(context: &Context, op: OpId, name: &str) -> (r: Option<u64>)
    requires
        context.inv(),
    ensures
        match r {
            Some(value) => context@.uint_attr(op, name@) == Some(value as nat),
            None => context@.uint_attr(op, name@) is None,
        },
{
    match context.with_attr(op, name) {
        Some(AttributeValue::UInt(value)) => Some(*value),
        _ => None,
    }
}

/// The signed attribute `name` of `op`.
pub fn int_attr(context: &Context, op: OpId, name: &str) -> (r: Option<i64>)
    requires
        context.inv(),
    ensures
        match r {
            Some(value) => context@.int_attr(op, name@) == Some(value as int),
            None => context@.int_attr(op, name@) is None,
        },
{
    match context.with_attr(op, name) {
        Some(AttributeValue::Int(value)) => Some(*value),
        _ => None,
    }
}

/// The string attribute `name` of `op`.
pub fn str_attr(context: &Context, op: OpId, name: &str) -> (r: Option<String>)
    requires
        context.inv(),
    ensures
        match r {
            Some(value) => context@.str_attr(op, name@) == Some(value@),
            None => context@.str_attr(op, name@) is None,
        },
{
    match context.with_attr(op, name) {
        Some(AttributeValue::Str(value)) => Some(value.clone()),
        _ => None,
    }
}

/// Whether the flag `name` of `op` is set.
pub fn flag_attr(context: &Context, op: OpId, name: &str) -> (r: bool)
    requires
        context.inv(),
    ensures
        r == context@.flag_attr(op, name@),
{
    match context.with_attr(op, name) {
        Some(AttributeValue::Bool(value)) => *value,
        _ => false,
    }
}

/// The block the attribute `name` of `op` names.
pub fn block_ref_attr(context: &Context, op: OpId, name: &str) -> (r: Option<BlockId>)
    requires
        context.inv(),
    ensures
        r == context@.block_ref_attr(op, name@),
{
    match context.with_attr(op, name) {
        Some(AttributeValue::Block(block)) => Some(*block),
        _ => None,
    }
}

/// The type the attribute `name` of `op` names.
pub fn type_attr(context: &Context, op: OpId, name: &str) -> (r: Option<TypeId>)
    requires
        context.inv(),
    ensures
        r == context@.type_attr(op, name@),
{
    match context.with_attr(op, name) {
        Some(AttributeValue::Type(ty)) => Some(*ty),
        _ => None,
    }
}

/// The array attribute `name` of `op`.
pub fn array_attr<'a>(context: &'a Context, op: OpId, name: &str) -> (r: Option<
    &'a Vec<AttributeValue>,
>)
    requires
        context.inv(),
    ensures
        match r {
            Some(items) => context@.array_attr(op, name@) == Some(attr_views(items@)),
            None => context@.array_attr(op, name@) is None,
        },
{
    match context.with_attr(op, name) {
        Some(AttributeValue::Array(items)) => {
            assert(attr_views(items@) =~= attr_view(AttributeValue::Array(*items))->Array_0);
            Some(items)
        },
        _ => None,
    }
}

/// Whether every entry of an array is a type.
pub open spec fn all_types(items: Seq<AttrView>) -> bool {
    forall|i: int| 0 <= i < items.len() ==> (#[trigger] items[i]) is Type
}

/// The types an array of types lists.
pub open spec fn types_in(items: Seq<AttrView>) -> Seq<TypeId> {
    items.map_values(|item: AttrView| item->Type_0)
}

/// The types an array of types lists.
pub fn type_items(items: &Vec<AttributeValue>) -> (r: Vec<TypeId>)
    requires
        all_types(attr_views(items@)),
    ensures
        r@ == types_in(attr_views(items@)),
{
    let ghost views = attr_views(items@);
    let mut r: Vec<TypeId> = Vec::new();
    let mut i: usize = 0;
    while i < items.len()
        invariant
            i <= items.len(),
            views == attr_views(items@),
            all_types(views),
            r.len() == i,
            forall|k: int| 0 <= k < i ==> r@[k] == (#[trigger] views[k])->Type_0,
        decreases items.len() - i,
    {
        assert(views[i as int] == attr_view(items@[i as int]));
        match &items[i] {
            AttributeValue::Type(ty) => {
                r.push(*ty);
            },
            _ => {
                assert(false);
            },
        }
        i += 1;
    }
    assert(r@ =~= types_in(views));
    r
}

/// The attribute that lists types.
pub open spec fn types_attr_view(types: Seq<TypeId>) -> AttrView {
    AttrView::Array(types.map_values(|ty: TypeId| AttrView::Type(ty)))
}

/// The attribute that lists `types`.
pub fn types_attr(types: &Vec<TypeId>) -> (r: AttributeValue)
    ensures
        r@ == types_attr_view(types@),
{
    let mut items: Vec<AttributeValue> = Vec::new();
    let mut i: usize = 0;
    while i < types.len()
        invariant
            i <= types.len(),
            items.len() == i,
            forall|k: int|
                0 <= k < i ==> attr_view(#[trigger] items@[k]) == AttrView::Type(types@[k]),
        decreases types.len() - i,
    {
        items.push(AttributeValue::Type(types[i]));
        i += 1;
    }
    let r = AttributeValue::Array(items);
    assert(attr_view(r)->Array_0 =~= types@.map_values(|ty: TypeId| AttrView::Type(ty)));
    r
}

/// The types written are the types read back.
pub proof fn types_are_read_back(types: Seq<TypeId>)
    ensures
        all_types(types_attr_view(types)->Array_0),
        types_in(types_attr_view(types)->Array_0) == types,
{
    assert(types_in(types_attr_view(types)->Array_0) =~= types);
}

} // verus!

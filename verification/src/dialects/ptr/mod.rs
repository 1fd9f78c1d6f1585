//! The `ptr` dialect: pointers plus the loads and stores that read and write
//! through them. Pointer arithmetic is byte-based and loads and stores carry no
//! offset.
pub mod emit;
pub mod expand;
pub mod expand_laws;
pub mod intrinsics;
pub mod library;

use vstd::prelude::*;
use crate::access::str_attr;
use crate::access::uint_attr;
use crate::attributes::AttrView;
use crate::attributes::AttributeValue;
use crate::builder::BuilderView;
use crate::builder::OpBuilder;
use crate::context::Context;
use crate::context::ContextView;
use crate::context::OpHandle;
use crate::context::edits::first_position;
use crate::dialects::builtin::arith::compared;
use crate::error::invalid;
use crate::error::verdict;
use crate::error::Error;
use crate::graph::MutDag;
use crate::graph::NodeId;
use crate::ids::OpId;
use crate::ids::TypeId;
use crate::ids::ValueId;
use crate::interfaces::MemoryRead;
use crate::interfaces::MemoryWrite;
use crate::interfaces::PromotableAllocation;
use crate::layout::DataLayout;
use crate::sem::add_comparison;
use crate::sem::add_leaf;
use crate::sem::with_leaf;
use crate::sem::SymKind;
use crate::sem::SymPayload;
use crate::text::cat2;
use crate::text::cat3;
use crate::text::same;
use crate::ty::interned;
use crate::ty::PtrType;
use crate::ty::Type;
use crate::ty::TypeView;

verus! {

/// A stack slot.
#[derive(Debug, Clone, Copy)]
pub struct AllocaOp(pub OpHandle);

/// The null pointer.
#[derive(Debug, Clone, Copy)]
pub struct NullOp(pub OpHandle);

/// A comparison of two addresses.
#[derive(Debug, Clone, Copy)]
pub struct CmpOp(pub OpHandle);

/// A read through a pointer.
#[derive(Debug, Clone, Copy)]
pub struct LoadOp(pub OpHandle);

/// A write through a pointer.
#[derive(Debug, Clone, Copy)]
pub struct StoreOp(pub OpHandle);

/// A copy of a run of bytes.
#[derive(Debug, Clone, Copy)]
pub struct MemcpyOp(pub OpHandle);

/// A run of bytes set to one byte.
#[derive(Debug, Clone, Copy)]
pub struct MemsetOp(pub OpHandle);

/// Builds an [`AllocaOp`].
pub struct AllocaOpBuilder(pub OpBuilder);

/// Builds a comparison of two addresses.
pub struct CmpOpBuilder(pub OpBuilder);

impl PtrType {
    /// An opaque pointer: `!ptr.p`.
    pub fn opaque(context: &mut Context) -> (id: TypeId)
        requires
            old(context).inv(),
            old(context)@.types.len() < u32::MAX,
        ensures
            final(context).inv(),
            final(context)@ == (ContextView {
                types: interned(old(context)@.types, TypeView::Ptr(None)),
                ..old(context)@
            }),
            id.0 < final(context)@.types.len(),
            final(context)@.types[id.0 as int] == TypeView::Ptr(None),
            first_position(final(context)@.types, TypeView::Ptr(None)) == Some(id.0 as int),
    {
        context.get_type_id(Type::Ptr(PtrType { pointee: None }))
    }

    /// A typed pointer to `pointee`: `!ptr.p<!pointee>`.
    pub fn typed(context: &mut Context, pointee: TypeId) -> (id: TypeId)
        requires
            old(context).inv(),
            old(context)@.types.len() < u32::MAX,
            pointee.0 < old(context)@.types.len(),
        ensures
            final(context).inv(),
            final(context)@ == (ContextView {
                types: interned(old(context)@.types, TypeView::Ptr(Some(pointee))),
                ..old(context)@
            }),
            id.0 < final(context)@.types.len(),
            final(context)@.types[id.0 as int] == TypeView::Ptr(Some(pointee)),
            first_position(final(context)@.types, TypeView::Ptr(Some(pointee))) == Some(
                id.0 as int,
            ),
    {
        context.get_type_id(Type::Ptr(PtrType { pointee: Some(pointee) }))
    }

    /// The pointee type id, or `None` for an opaque pointer.
    pub fn pointee(&self) -> (r: Option<TypeId>)
        ensures
            r == self.pointee,
    {
        self.pointee
    }
}

impl AllocaOpBuilder {
    /// A slot of nothing yet.
    pub fn new() -> (r: Self)
        ensures
            r.0@ == BuilderView::fresh("ptr"@, "alloca"@),
    {
        AllocaOpBuilder(OpBuilder::new("ptr", "alloca"))
    }

    /// With how many bytes it takes.
    pub fn size(self, size: u64) -> (r: Self)
        ensures
            r.0@ == self.0@.with_attr("size"@, AttrView::UInt(size as nat)),
    {
        AllocaOpBuilder(self.0.attr("size", AttributeValue::UInt(size)))
    }

    /// With its alignment.
    pub fn align(self, align: u64) -> (r: Self)
        ensures
            r.0@ == self.0@.with_attr("align"@, AttrView::UInt(align as nat)),
    {
        AllocaOpBuilder(self.0.attr("align", AttributeValue::UInt(align)))
    }

    /// With the type of its address.
    pub fn result_type(self, ty: TypeId) -> (r: Self)
        ensures
            r.0@ == self.0@.with_result(ty),
    {
        AllocaOpBuilder(self.0.result_type(ty))
    }

    /// Stores the slot.
    pub fn build(self, context: &mut Context) -> (op: AllocaOp)
        requires
            old(context).inv(),
            self.0@.fits(old(context)@),
        ensures
            final(context).inv(),
            final(context)@ == self.0@.built(old(context)@),
            op.0.id == OpId(old(context)@.ir.ops.now.len() as u32),
            final(context)@.ir.op(op.0.id) == Some(self.0@.op(old(context)@)),
    {
        AllocaOp(self.0.build(context))
    }
}

impl AllocaOp {
    /// How many bytes the slot takes.
    pub fn size(&self, context: &Context) -> (n: u64)
        requires
            context.inv(),
            context@.uint_attr(self.0.id, "size"@) is Some,
        ensures
            context@.uint_attr(self.0.id, "size"@) == Some(n as nat),
    {
        uint_attr(context, self.0.id, "size").unwrap()
    }

    /// The alignment of the slot.
    pub fn align(&self, context: &Context) -> (n: u64)
        requires
            context.inv(),
            context@.uint_attr(self.0.id, "align"@) is Some,
        ensures
            context@.uint_attr(self.0.id, "align"@) == Some(n as nat),
    {
        uint_attr(context, self.0.id, "align").unwrap()
    }
}

impl PromotableAllocation for AllocaOp {
    open spec fn allocates(&self, context: ContextView) -> bool {
        context.ir.op(self.0.id) is Some && context.ir.op(self.0.id)->0.results.len() > 0
    }

    open spec fn location(&self, context: ContextView) -> ValueId {
        context.ir.op(self.0.id)->0.results[0]
    }

    fn promoted_location(&self, context: &Context) -> (v: ValueId) {
        context.results_of(self.0.id)[0]
    }
}

impl NullOp {
    /// Adds the null pointer: the all-zero address, at the pointer width the
    /// data layout in scope declares. Without a layout the address width is
    /// unknown, so the op offers no semantics rather than guessing one.
    pub fn null_address<G: MutDag<Node = SymKind, Leaf = SymPayload>>(
        &self,
        layout: Option<&DataLayout>,
        g: &mut G,
    ) -> (r: Option<NodeId>)
        requires
            old(g).wf(),
            old(g).dag().nodes.len() < u32::MAX,
        ensures
            final(g).wf(),
            match pointer_bits(layout) {
                Some(width) => {
                    &&& r == Some(NodeId(old(g).dag().nodes.len() as u32))
                    &&& final(g).dag() == with_leaf(
                        old(g).dag(),
                        SymKind::Constant,
                        SymPayload::Int(width, 0),
                    )
                },
                None => r is None && final(g).dag() == old(g).dag(),
            },
    {
        let width: u32 = match layout {
            Some(l) => match l.pointer_size() {
                Some(width) => width,
                None => {
                    return None;
                },
            },
            None => {
                return None;
            },
        };
        Some(add_leaf(g, SymKind::Constant, SymPayload::Int(width, 0)))
    }
}

/// How wide the layout in scope says a pointer is.
pub open spec fn pointer_bits(layout: Option<&DataLayout>) -> Option<u32> {
    match layout {
        Some(l) => l.index_bits(),
        None => None,
    }
}

/// The comparison of addresses `name` names, in canonical form, and whether its
/// operands are exchanged there. Addresses are unsigned, so a signed comparison
/// of two of them has no meaning to declare.
pub open spec fn address_comparison(name: Seq<char>) -> Option<(SymKind, bool)> {
    if name == "eq"@ {
        Some((SymKind::Eq, false))
    } else if name == "ne"@ {
        Some((SymKind::Ne, false))
    } else if name == "ult"@ {
        Some((SymKind::ULt, false))
    } else if name == "ugt"@ {
        Some((SymKind::ULt, true))
    } else if name == "uge"@ {
        Some((SymKind::UGe, false))
    } else if name == "ule"@ {
        Some((SymKind::UGe, true))
    } else {
        None
    }
}

fn address_kind(name: &str) -> (r: Option<(SymKind, bool)>)
    ensures
        r == address_comparison(name@),
{
    if same(name, "eq") {
        Some((SymKind::Eq, false))
    } else if same(name, "ne") {
        Some((SymKind::Ne, false))
    } else if same(name, "ult") {
        Some((SymKind::ULt, false))
    } else if same(name, "ugt") {
        Some((SymKind::ULt, true))
    } else if same(name, "uge") {
        Some((SymKind::UGe, false))
    } else if same(name, "ule") {
        Some((SymKind::UGe, true))
    } else {
        None
    }
}

impl ContextView {
    /// What a comparison of addresses computes, where the layout in scope says
    /// how wide an address is.
    pub open spec fn addresses_compared(self, op: OpId, pointer: Option<u32>) -> Option<
        (SymKind, bool),
    > {
        if pointer is None {
            None
        } else {
            match self.str_attr(op, "predicate"@) {
                Some(name) => address_comparison(name),
                None => None,
            }
        }
    }

    /// Why a comparison of addresses is wrong.
    pub open spec fn address_failure(self, op: OpId) -> Option<Seq<char>> {
        match self.str_attr(op, "predicate"@) {
            Some(name) => if address_comparison(name) is Some {
                None
            } else {
                Some(
                    "ptr.cmp predicate '"@ + name
                        + "' is not a pointer comparison (expected eq, ne, ult, ule, ugt, uge)"@,
                )
            },
            None => Some("ptr.cmp requires a string 'predicate' attribute"@),
        }
    }

    /// Why a function value passes through memory where it cannot.
    pub open spec fn moved_function_failure(self, value: ValueId, op: Seq<char>) -> Option<
        Seq<char>,
    > {
        if self.types[self.type_of(value).0 as int] is Fn {
            Some(op + " moves a function value through memory"@)
        } else {
            None
        }
    }

    /// Why a copy of bytes is wrong.
    pub open spec fn copy_failure(self, op: OpId) -> Option<Seq<char>> {
        match self.types[self.type_of(self.ir.op(op)->0.operands[2]).0 as int] {
            TypeView::Integer(width) => if width == 64 {
                None
            } else {
                Some("ptr.memcpy size must have type i64"@)
            },
            _ => Some("ptr.memcpy size must have integer type"@),
        }
    }

    /// Why a fill of bytes is wrong.
    pub open spec fn fill_failure(self, op: OpId) -> Option<Seq<char>> {
        let o = self.ir.op(op)->0;
        if self.types[self.type_of(o.operands[1]).0 as int] != TypeView::Integer(8) {
            Some("ptr.memset value must have type i8"@)
        } else if self.types[self.type_of(o.operands[2]).0 as int] != TypeView::Integer(64) {
            Some("ptr.memset size must have type i64"@)
        } else {
            None
        }
    }
}

impl CmpOp {
    /// Adds the comparison of the two addresses, as unsigned integers at the
    /// width the data layout in scope declares for a pointer. Without a layout
    /// the address width is unknown, so the op offers no semantics rather than
    /// guessing one.
    pub fn comparison<G: MutDag<Node = SymKind, Leaf = SymPayload>>(
        &self,
        context: &Context,
        layout: Option<&DataLayout>,
        g: &mut G,
    ) -> (r: Option<NodeId>)
        requires
            context.inv(),
            old(g).wf(),
            old(g).dag().nodes.len() + 3 <= u32::MAX,
        ensures
            final(g).wf(),
            compared(
                old(g).dag(),
                context@.addresses_compared(self.0.id, pointer_bits(layout)),
                final(g).dag(),
                r,
            ),
    {
        let known = match layout {
            Some(l) => l.pointer_size().is_some(),
            None => false,
        };
        if !known {
            return None;
        }
        let name = match str_attr(context, self.0.id, "predicate") {
            Some(name) => name,
            None => {
                return None;
            },
        };
        match address_kind(name.as_str()) {
            Some((kind, swap)) => Some(add_comparison(g, kind, swap)),
            None => None,
        }
    }

    /// Checks that the comparison is one addresses have.
    pub fn verify_impl(&self, context: &Context) -> (r: Result<(), Error>)
        requires
            context.inv(),
        ensures
            verdict(r, context@.address_failure(self.0.id)),
    {
        match str_attr(context, self.0.id, "predicate") {
            Some(name) => match address_kind(name.as_str()) {
                Some(_) => Ok(()),
                None => {
                    let message = cat3(
                        "ptr.cmp predicate '",
                        name.as_str(),
                        "' is not a pointer comparison (expected eq, ne, ult, ule, ugt, uge)",
                    );
                    Err(invalid(message.as_str()))
                },
            },
            None => Err(invalid("ptr.cmp requires a string 'predicate' attribute")),
        }
    }
}

impl CmpOpBuilder {
    /// With the comparison to make.
    pub fn predicate(self, pred: &str) -> (r: Self)
        ensures
            r.0@ == self.0@.with_attr("predicate"@, AttrView::Str(pred@)),
    {
        CmpOpBuilder(self.0.attr("predicate", AttributeValue::Str(pred.to_owned())))
    }
}

/// A λ value names a function, not a machine word: it never lives in memory. A
/// language that stores function pointers converts to and from `!ptr.p` around
/// the store.
fn reject_function_value(context: &Context, value: ValueId, op: &str) -> (r: Result<(), Error>)
    requires
        context.inv(),
        context@.ir.value(value) is Some,
        context@.value_sound(value),
    ensures
        verdict(r, context@.moved_function_failure(value, op@)),
{
    match context.get_type_data(context.get_value(value).ty) {
        Type::Fn(_) => Err(invalid(cat2(op, " moves a function value through memory").as_str())),
        _ => Ok(()),
    }
}

impl ContextView {
    /// Whether an operation has `operands` value operands and `results` value
    /// results, all live and typed.
    pub open spec fn memory_wf(self, op: OpId, operands: nat, results: nat) -> bool {
        &&& self.readable(op)
        &&& self.value_operands(op).len() >= operands
        &&& self.value_results(op).len() >= results
        &&& self.values_typed(self.ir.op(op)->0.operands)
        &&& self.values_typed(self.ir.op(op)->0.results)
    }

    /// The memory state an operation observes, absent until state has been
    /// threaded.
    pub open spec fn observed_state(self, op: OpId) -> Option<ValueId> {
        if self.dep_operands(op).len() > 0 {
            Some(self.dep_operands(op)[0])
        } else {
            None
        }
    }

    /// The memory state an operation leaves, absent until state has been
    /// threaded.
    pub open spec fn left_state(self, op: OpId) -> Option<ValueId> {
        if self.dep_results(op).len() > 0 {
            Some(self.dep_results(op)[0])
        } else {
            None
        }
    }
}

/// The memory state an operation observes.
pub fn observed_state(context: &Context, op: &OpHandle) -> (r: Option<ValueId>)
    requires
        context.inv(),
        context@.readable(op.id),
    ensures
        r == context@.observed_state(op.id),
{
    let deps = op.dep_operands(context);
    if deps.len() > 0 {
        Some(deps.at(0))
    } else {
        None
    }
}

/// The memory state an operation leaves.
pub fn produced_state(context: &Context, op: &OpHandle) -> (r: Option<ValueId>)
    requires
        context.inv(),
        context@.readable(op.id),
    ensures
        r == context@.left_state(op.id),
{
    let deps = op.dep_results(context);
    if deps.len() > 0 {
        Some(deps.at(0))
    } else {
        None
    }
}

impl LoadOp {
    /// Checks that no function value is read.
    pub fn verify_impl(&self, context: &Context) -> (r: Result<(), Error>)
        requires
            context.inv(),
            context@.memory_wf(self.0.id, 1, 1),
        ensures
            verdict(
                r,
                context@.moved_function_failure(
                    context@.ir.op(self.0.id)->0.results[0],
                    "load"@,
                ),
            ),
    {
        let result = context.results_of(self.0.id)[0];
        assert(context@.ir.value(context@.ir.op(self.0.id)->0.results[0]) is Some);
        reject_function_value(context, result, "load")
    }
}

impl MemoryRead for LoadOp {
    open spec fn reads(&self, context: ContextView) -> bool {
        context.memory_wf(self.0.id, 1, 1)
    }

    open spec fn location_read(&self, context: ContextView) -> ValueId {
        context.ir.op(self.0.id)->0.operands[0]
    }

    open spec fn value_read(&self, context: ContextView) -> ValueId {
        context.ir.op(self.0.id)->0.results[0]
    }

    open spec fn state_observed(&self, context: ContextView) -> Option<ValueId> {
        context.observed_state(self.0.id)
    }

    open spec fn state_left(&self, context: ContextView) -> Option<ValueId> {
        context.left_state(self.0.id)
    }

    fn read_location(&self, context: &Context) -> (v: ValueId) {
        context.operands_of(self.0.id)[0]
    }

    fn read_value(&self, context: &Context) -> (v: ValueId) {
        context.results_of(self.0.id)[0]
    }

    fn state_operand(&self, context: &Context) -> (r: Option<ValueId>) {
        observed_state(context, &self.0)
    }

    fn state_result(&self, context: &Context) -> (r: Option<ValueId>) {
        produced_state(context, &self.0)
    }
}

impl StoreOp {
    /// Checks that no function value is written.
    pub fn verify_impl(&self, context: &Context) -> (r: Result<(), Error>)
        requires
            context.inv(),
            context@.memory_wf(self.0.id, 2, 0),
        ensures
            verdict(
                r,
                context@.moved_function_failure(
                    context@.ir.op(self.0.id)->0.operands[0],
                    "store"@,
                ),
            ),
    {
        let value = context.operands_of(self.0.id)[0];
        assert(context@.ir.value(context@.ir.op(self.0.id)->0.operands[0]) is Some);
        reject_function_value(context, value, "store")
    }
}

impl MemoryWrite for StoreOp {
    open spec fn writes(&self, context: ContextView) -> bool {
        context.memory_wf(self.0.id, 2, 0)
    }

    open spec fn location_written(&self, context: ContextView) -> ValueId {
        context.ir.op(self.0.id)->0.operands[1]
    }

    open spec fn value_stored(&self, context: ContextView) -> ValueId {
        context.ir.op(self.0.id)->0.operands[0]
    }

    open spec fn state_before(&self, context: ContextView) -> Option<ValueId> {
        context.observed_state(self.0.id)
    }

    open spec fn state_after(&self, context: ContextView) -> Option<ValueId> {
        context.left_state(self.0.id)
    }

    fn write_location(&self, context: &Context) -> (v: ValueId) {
        context.operands_of(self.0.id)[1]
    }

    fn written_value(&self, context: &Context) -> (v: ValueId) {
        context.operands_of(self.0.id)[0]
    }

    fn state_operand(&self, context: &Context) -> (r: Option<ValueId>) {
        observed_state(context, &self.0)
    }

    fn state_result(&self, context: &Context) -> (r: Option<ValueId>) {
        produced_state(context, &self.0)
    }
}

impl MemcpyOp {
    /// Checks that the size is a 64-bit integer.
    pub fn verify_impl(&self, context: &Context) -> (r: Result<(), Error>)
        requires
            context.inv(),
            context@.memory_wf(self.0.id, 3, 0),
        ensures
            verdict(r, context@.copy_failure(self.0.id)),
    {
        let size = context.operands_of(self.0.id)[2];
        assert(context@.ir.value(context@.ir.op(self.0.id)->0.operands[2]) is Some);
        match context.get_type_data(context.get_value(size).ty) {
            Type::Integer(t) => if t.width() == 64 {
                Ok(())
            } else {
                Err(invalid("ptr.memcpy size must have type i64"))
            },
            _ => Err(invalid("ptr.memcpy size must have integer type")),
        }
    }
}

impl MemsetOp {
    /// Checks that the value is a byte and the size a 64-bit integer.
    pub fn verify_impl(&self, context: &Context) -> (r: Result<(), Error>)
        requires
            context.inv(),
            context@.memory_wf(self.0.id, 3, 0),
            context@.types[context@.type_of(context@.ir.op(self.0.id)->0.operands[1]).0 as int]
                is Integer,
            context@.types[context@.type_of(context@.ir.op(self.0.id)->0.operands[2]).0 as int]
                is Integer,
        ensures
            verdict(r, context@.fill_failure(self.0.id)),
    {
        let value = context.operands_of(self.0.id)[1];
        let size = context.operands_of(self.0.id)[2];
        assert(context@.ir.value(context@.ir.op(self.0.id)->0.operands[1]) is Some);
        assert(context@.ir.value(context@.ir.op(self.0.id)->0.operands[2]) is Some);
        let byte = match context.get_type_data(context.get_value(value).ty) {
            Type::Integer(t) => t.width() == 8,
            _ => false,
        };
        if !byte {
            return Err(invalid("ptr.memset value must have type i8"));
        }
        let wide = match context.get_type_data(context.get_value(size).ty) {
            Type::Integer(t) => t.width() == 64,
            _ => false,
        };
        if !wide {
            return Err(invalid("ptr.memset size must have type i64"));
        }
        Ok(())
    }
}

impl MemoryWrite for MemsetOp {
    open spec fn writes(&self, context: ContextView) -> bool {
        context.memory_wf(self.0.id, 3, 0)
    }

    open spec fn location_written(&self, context: ContextView) -> ValueId {
        context.ir.op(self.0.id)->0.operands[0]
    }

    open spec fn value_stored(&self, context: ContextView) -> ValueId {
        context.ir.op(self.0.id)->0.operands[1]
    }

    open spec fn state_before(&self, context: ContextView) -> Option<ValueId> {
        context.observed_state(self.0.id)
    }

    open spec fn state_after(&self, context: ContextView) -> Option<ValueId> {
        context.left_state(self.0.id)
    }

    fn write_location(&self, context: &Context) -> (v: ValueId) {
        context.operands_of(self.0.id)[0]
    }

    fn written_value(&self, context: &Context) -> (v: ValueId) {
        context.operands_of(self.0.id)[1]
    }

    fn state_operand(&self, context: &Context) -> (r: Option<ValueId>) {
        observed_state(context, &self.0)
    }

    fn state_result(&self, context: &Context) -> (r: Option<ValueId>) {
        produced_state(context, &self.0)
    }
}

} // verus!

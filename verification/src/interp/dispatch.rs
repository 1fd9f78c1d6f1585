//! Which leaf evaluates itself, and how.
use vstd::prelude::*;
use crate::context::Context;
use crate::context::ContextView;
use crate::context::OpHandle;
use crate::dialects::builtin::arith::ConstantOp;
use crate::dialects::builtin::tuple::MakeTupleOp;
use crate::dialects::builtin::tuple::TupleGetOp;
use crate::dialects::fp::bits::AbsOp;
use crate::dialects::fp::bits::ClassifyOp;
use crate::dialects::fp::bits::CopySignOp;
use crate::dialects::fp::bits::NegOp;
use crate::dialects::fp::bits::SignBitOp;
use crate::dialects::fp::round::FenceOp;
use crate::dialects::ptr::AllocaOp;
use crate::dialects::ptr::LoadOp;
use crate::dialects::ptr::MemcpyOp;
use crate::dialects::ptr::MemsetOp;
use crate::dialects::ptr::StoreOp;
use crate::dialects::state::EntryStateOp;
use crate::interp::gives;
use crate::interp::leaf::Interp;
use crate::interp::leaf::Outcome;
use crate::interp::memory::Memory;
use crate::interp::memory::MemoryView;
use crate::interp::semantic::eval_semantic;
use crate::interp::semantic::SemValue;
use crate::interp::value_views;
use crate::interp::InterpError;
use crate::interp::Value;
use crate::interp::ValueView;

verus! {

/// The leaves that evaluate themselves.
#[derive(Debug, Clone, Copy, PartialEq, Eq, Structural)]
pub enum Leaf {
    Constant,
    MakeTuple,
    TupleGet,
    EntryState,
    Alloca,
    Load,
    Store,
    Memcpy,
    Memset,
    Neg,
    Abs,
    CopySign,
    SignBit,
    Classify,
    Fence,
}

impl ContextView {
    /// The leaf spelled like `op`, if any.
    pub open spec fn leaf(self, op: OpHandle) -> Option<Leaf> {
        let identity = self.identity(op.id);
        if identity == ("builtin"@, "constant"@) {
            Some(Leaf::Constant)
        } else if identity == ("builtin"@, "make_tuple"@) {
            Some(Leaf::MakeTuple)
        } else if identity == ("builtin"@, "tuple_get"@) {
            Some(Leaf::TupleGet)
        } else if identity == ("state"@, "entry_state"@) {
            Some(Leaf::EntryState)
        } else if identity == ("ptr"@, "alloca"@) {
            Some(Leaf::Alloca)
        } else if identity == ("ptr"@, "load"@) {
            Some(Leaf::Load)
        } else if identity == ("ptr"@, "store"@) {
            Some(Leaf::Store)
        } else if identity == ("ptr"@, "memcpy"@) {
            Some(Leaf::Memcpy)
        } else if identity == ("ptr"@, "memset"@) {
            Some(Leaf::Memset)
        } else if identity == ("fp"@, "neg"@) {
            Some(Leaf::Neg)
        } else if identity == ("fp"@, "abs"@) {
            Some(Leaf::Abs)
        } else if identity == ("fp"@, "copysign"@) {
            Some(Leaf::CopySign)
        } else if identity == ("fp"@, "signbit"@) {
            Some(Leaf::SignBit)
        } else if identity == ("fp"@, "classify"@) {
            Some(Leaf::Classify)
        } else if identity == ("fp"@, "fence"@) {
            Some(Leaf::Fence)
        } else {
            None
        }
    }

    /// Whether `op` has what its evaluation reads.
    pub open spec fn leaf_evaluable(
        self,
        op: OpHandle,
        operands: Seq<ValueView>,
        memory: MemoryView,
    ) -> bool {
        match self.leaf(op) {
            Some(Leaf::Constant) => ConstantOp(op).evaluable(self, operands, memory),
            Some(Leaf::MakeTuple) => MakeTupleOp(op).evaluable(self, operands, memory),
            Some(Leaf::TupleGet) => TupleGetOp(op).evaluable(self, operands, memory),
            Some(Leaf::EntryState) => EntryStateOp(op).evaluable(self, operands, memory),
            Some(Leaf::Alloca) => AllocaOp(op).evaluable(self, operands, memory),
            Some(Leaf::Load) => LoadOp(op).evaluable(self, operands, memory),
            Some(Leaf::Store) => StoreOp(op).evaluable(self, operands, memory),
            Some(Leaf::Memcpy) => MemcpyOp(op).evaluable(self, operands, memory),
            Some(Leaf::Memset) => MemsetOp(op).evaluable(self, operands, memory),
            Some(Leaf::Neg) => NegOp(op).evaluable(self, operands, memory),
            Some(Leaf::Abs) => AbsOp(op).evaluable(self, operands, memory),
            Some(Leaf::CopySign) => CopySignOp(op).evaluable(self, operands, memory),
            Some(Leaf::SignBit) => SignBitOp(op).evaluable(self, operands, memory),
            Some(Leaf::Classify) => ClassifyOp(op).evaluable(self, operands, memory),
            Some(Leaf::Fence) => FenceOp(op).evaluable(self, operands, memory),
            None => true,
        }
    }

    /// Where evaluating `op` leads. One that does not evaluate itself is evaluated
    /// through its semantic expression, which comes to `result`.
    pub open spec fn leaf_outcome(
        self,
        op: OpHandle,
        operands: Seq<ValueView>,
        memory: MemoryView,
        pointer_width: u32,
        result: Option<SemValue>,
    ) -> Outcome {
        match self.leaf(op) {
            Some(Leaf::Constant) => ConstantOp(op).outcome(self, operands, memory),
            Some(Leaf::MakeTuple) => MakeTupleOp(op).outcome(self, operands, memory),
            Some(Leaf::TupleGet) => TupleGetOp(op).outcome(self, operands, memory),
            Some(Leaf::EntryState) => EntryStateOp(op).outcome(self, operands, memory),
            Some(Leaf::Alloca) => AllocaOp(op).outcome(self, operands, memory),
            Some(Leaf::Load) => LoadOp(op).outcome(self, operands, memory),
            Some(Leaf::Store) => StoreOp(op).outcome(self, operands, memory),
            Some(Leaf::Memcpy) => MemcpyOp(op).outcome(self, operands, memory),
            Some(Leaf::Memset) => MemsetOp(op).outcome(self, operands, memory),
            Some(Leaf::Neg) => NegOp(op).outcome(self, operands, memory),
            Some(Leaf::Abs) => AbsOp(op).outcome(self, operands, memory),
            Some(Leaf::CopySign) => CopySignOp(op).outcome(self, operands, memory),
            Some(Leaf::SignBit) => SignBitOp(op).outcome(self, operands, memory),
            Some(Leaf::Classify) => ClassifyOp(op).outcome(self, operands, memory),
            Some(Leaf::Fence) => FenceOp(op).outcome(self, operands, memory),
            None => (memory, self.semantic_outcome(op.id, operands, pointer_width, result)),
        }
    }
}

/// The leaf spelled like `op`, if any.
pub fn leaf_of(context: &Context, op: OpHandle) -> (r: Option<Leaf>)
    requires
        context.inv(),
        context@.readable(op.id),
    ensures
        r == context@.leaf(op),
{
    if op.is_name(context, "builtin", "constant") {
        Some(Leaf::Constant)
    } else if op.is_name(context, "builtin", "make_tuple") {
        Some(Leaf::MakeTuple)
    } else if op.is_name(context, "builtin", "tuple_get") {
        Some(Leaf::TupleGet)
    } else if op.is_name(context, "state", "entry_state") {
        Some(Leaf::EntryState)
    } else if op.is_name(context, "ptr", "alloca") {
        Some(Leaf::Alloca)
    } else if op.is_name(context, "ptr", "load") {
        Some(Leaf::Load)
    } else if op.is_name(context, "ptr", "store") {
        Some(Leaf::Store)
    } else if op.is_name(context, "ptr", "memcpy") {
        Some(Leaf::Memcpy)
    } else if op.is_name(context, "ptr", "memset") {
        Some(Leaf::Memset)
    } else if op.is_name(context, "fp", "neg") {
        Some(Leaf::Neg)
    } else if op.is_name(context, "fp", "abs") {
        Some(Leaf::Abs)
    } else if op.is_name(context, "fp", "copysign") {
        Some(Leaf::CopySign)
    } else if op.is_name(context, "fp", "signbit") {
        Some(Leaf::SignBit)
    } else if op.is_name(context, "fp", "classify") {
        Some(Leaf::Classify)
    } else if op.is_name(context, "fp", "fence") {
        Some(Leaf::Fence)
    } else {
        None
    }
}

/// Evaluates the leaf `op`: by itself where it does that, else through its
/// semantic expression, which comes to `result`.
pub fn eval_leaf(
    context: &Context,
    op: OpHandle,
    operands: &Vec<Value>,
    memory: &mut Memory,
    pointer_width: u32,
    result: Option<SemValue>,
) -> (r: Result<Vec<Value>, InterpError>)
    requires
        context.inv(),
        context@.readable(op.id),
        old(memory).inv(),
        context@.leaf_evaluable(op, value_views(operands@), old(memory)@),
        context@.leaf(op) is None ==> context@.semantic_fits(op.id, result),
    ensures
        final(memory).inv(),
        ({
            let outcome = context@.leaf_outcome(
                op,
                value_views(operands@),
                old(memory)@,
                pointer_width,
                result,
            );
            final(memory)@ == outcome.0 && gives(r, outcome.1, |v: Vec<Value>| value_views(v@))
        }),
{
    match leaf_of(context, op) {
        Some(Leaf::Constant) => ConstantOp(op).evaluate(context, operands, memory),
        Some(Leaf::MakeTuple) => MakeTupleOp(op).evaluate(context, operands, memory),
        Some(Leaf::TupleGet) => TupleGetOp(op).evaluate(context, operands, memory),
        Some(Leaf::EntryState) => EntryStateOp(op).evaluate(context, operands, memory),
        Some(Leaf::Alloca) => AllocaOp(op).evaluate(context, operands, memory),
        Some(Leaf::Load) => LoadOp(op).evaluate(context, operands, memory),
        Some(Leaf::Store) => StoreOp(op).evaluate(context, operands, memory),
        Some(Leaf::Memcpy) => MemcpyOp(op).evaluate(context, operands, memory),
        Some(Leaf::Memset) => MemsetOp(op).evaluate(context, operands, memory),
        Some(Leaf::Neg) => NegOp(op).evaluate(context, operands, memory),
        Some(Leaf::Abs) => AbsOp(op).evaluate(context, operands, memory),
        Some(Leaf::CopySign) => CopySignOp(op).evaluate(context, operands, memory),
        Some(Leaf::SignBit) => SignBitOp(op).evaluate(context, operands, memory),
        Some(Leaf::Classify) => ClassifyOp(op).evaluate(context, operands, memory),
        Some(Leaf::Fence) => FenceOp(op).evaluate(context, operands, memory),
        None => eval_semantic(context, op, operands, pointer_width, result),
    }
}

} // verus!

//! What the evaluation of a semantic expression gives, as a value of the type the
//! IR declares.
use vstd::prelude::*;
use crate::attributes::AttrView;
use crate::context::Context;
use crate::context::ContextView;
use crate::context::OpHandle;
use crate::ids::OpId;
use crate::ids::TypeId;
use crate::interp::gives;
use crate::interp::low_bits;
use crate::interp::message;
use crate::interp::signed_value;
use crate::interp::value_views;
use crate::interp::FloatValue;
use crate::interp::IntValue;
use crate::interp::InterpError;
use crate::interp::InterpErrorView;
use crate::interp::Value;
use crate::interp::ValueView;
use crate::layout::class_layout_of;
use crate::layout::DATA_LAYOUT;
use crate::layout::DataLayout;
use crate::text::cat2;
use crate::text::cat3;
use crate::ty::Type;
use crate::ty::TypeView;

verus! {

/// How wide a pointer is at `op`, in bits: as the layout in scope says, or 64 where
/// none says.
pub fn pointer_width(context: &Context, op: OpId, scoped: Option<DataLayout>) -> (width: u32)
    requires
        context.inv(),
    ensures
        width == context@.pointer_bits(op, scoped),
{
    assert(class_layout_of(Seq::empty(), "p"@) is None);
    match DataLayout::for_instance(context, op, scoped) {
        Some(layout) => match layout.pointer_size() {
            Some(width) => width,
            None => 64,
        },
        None => 64,
    }
}

impl ContextView {
    /// How wide a pointer is at `op`, in bits: as the layout of `scoped` says, or the
    /// one `op` carries itself, or 64 where neither says.
    pub open spec fn pointer_bits(self, op: OpId, scoped: Option<DataLayout>) -> u32 {
        let entries = match scoped {
            Some(layout) => layout@,
            None => match self.attr(op, DATA_LAYOUT@) {
                Some(AttrView::Dict(entries)) => entries,
                _ => Seq::empty(),
            },
        };
        match class_layout_of(entries, "p"@) {
            Some(entry) => entry.0,
            None => 64,
        }
    }
}

/// A result of the evaluator that semantic expressions share.
#[derive(Debug, Clone, Copy)]
pub enum SemValue {
    Int(IntValue),
    Float(FloatValue),
    RawBits(IntValue),
    /// Anything that no value of the IR stands for.
    Other,
}

/// The integer with the bits of `n` that is not taken to be signed.
pub open spec fn unsigned(n: IntValue) -> IntValue {
    IntValue { signed: false, ..n }
}

/// The integer of `width` bits that `n` becomes.
pub open spec fn widened(n: IntValue, width: u32) -> IntValue {
    if n.width == width {
        n
    } else if n.width > width {
        IntValue { width, bits: low_bits(width, n.bits), signed: n.signed }
    } else if n.signed {
        IntValue { width, bits: low_bits(width, signed_value(n) as i64 as u64), signed: true }
    } else {
        IntValue { width, bits: n.bits, signed: false }
    }
}

/// How wide an integer of type `ty` is, where the type says so.
pub open spec fn declared_width(ty: TypeView, pointer_width: u32) -> Option<u32> {
    match ty {
        TypeView::Ptr(_) => Some(pointer_width),
        TypeView::Integer(width) => Some(width),
        _ => None,
    }
}

/// Semantic evaluation coerces widths freely: pins a result back to the width
/// the IR declares.
pub fn widen_int_to_type(
    context: &Context,
    int_value: IntValue,
    ty: TypeId,
    pointer_width: u32,
) -> (r: Value)
    requires
        context.inv(),
        ty.0 < context@.types.len(),
    ensures
        r@ == ValueView::Int(
            match declared_width(context@.types[ty.0 as int], pointer_width) {
                Some(width) => widened(int_value, width),
                None => int_value,
            },
        ),
{
    let width: u32 = match context.get_type_data(ty) {
        Type::Ptr(_) => pointer_width,
        Type::Integer(integer) => integer.width,
        _ => {
            return Value::Int(int_value);
        },
    };
    if int_value.width == width {
        Value::Int(int_value)
    } else if int_value.width > width {
        let low: u64 = IntValue::new(width, int_value.bits).bits;
        Value::Int(IntValue { width, bits: low, signed: int_value.signed })
    } else if int_value.signed {
        let n: i64 = Value::Int(int_value).to_i64().unwrap();
        Value::Int(IntValue::new_signed(width, n))
    } else {
        Value::Int(IntValue { width, bits: int_value.bits, signed: false })
    }
}

/// The value of type `ty` that a result is.
pub open spec fn typed_result(value: SemValue, ty: TypeView, pointer_width: u32) -> Result<
    ValueView,
    InterpErrorView,
> {
    match ty {
        TypeView::Ptr(_) => match value {
            SemValue::Int(n) => Ok(ValueView::Ptr(n.bits)),
            _ => Err(InterpErrorView::Message("pointer result must be integral"@)),
        },
        TypeView::Float(_, _) => match value {
            SemValue::Float(x) => Ok(ValueView::Float(x)),
            _ => Err(InterpErrorView::Message("float result must be a float"@)),
        },
        TypeView::Unit => Ok(ValueView::Unit),
        _ => match value {
            SemValue::Int(n) => Ok(
                ValueView::Int(
                    match declared_width(ty, pointer_width) {
                        Some(width) => widened(n, width),
                        None => n,
                    },
                ),
            ),
            SemValue::RawBits(n) => Ok(
                ValueView::Int(
                    match declared_width(ty, pointer_width) {
                        Some(width) => widened(unsigned(n), width),
                        None => unsigned(n),
                    },
                ),
            ),
            _ => Err(InterpErrorView::Message("integer result must be integral"@)),
        },
    }
}

/// The value of type `ty` that a result is. A float is in the format of the type.
pub fn from_sem_value(context: &Context, value: SemValue, ty: TypeId, pointer_width: u32) -> (r:
    Result<Value, InterpError>)
    requires
        context.inv(),
        ty.0 < context@.types.len(),
        match (context@.types[ty.0 as int], value) {
            (TypeView::Float(exponent, mantissa), SemValue::Float(x)) => x.exponent == exponent
                && x.mantissa == mantissa,
            _ => true,
        },
    ensures
        gives(
            r,
            typed_result(value, context@.types[ty.0 as int], pointer_width),
            |v: Value| v@,
        ),
{
    match context.get_type_data(ty) {
        Type::Ptr(_) => {
            return match value {
                SemValue::Int(n) => Ok(Value::Ptr(n.bits)),
                _ => Err(message("pointer result must be integral")),
            };
        },
        Type::Float(_) => {
            return match value {
                SemValue::Float(x) => Ok(Value::Float(x)),
                _ => Err(message("float result must be a float")),
            };
        },
        Type::Unit(_) => {
            return Ok(Value::Unit);
        },
        _ => {},
    }
    match value {
        SemValue::Int(n) => Ok(widen_int_to_type(context, n, ty, pointer_width)),
        SemValue::RawBits(n) => Ok(
            widen_int_to_type(context, IntValue { signed: false, ..n }, ty, pointer_width),
        ),
        _ => Err(message("integer result must be integral")),
    }
}

/// What stands for `value` in a semantic expression, where anything does.
pub open spec fn symbol_of(value: ValueView, pointer_width: u32) -> Result<
    SemValue,
    InterpErrorView,
> {
    match value {
        ValueView::Int(n) => Ok(SemValue::Int(n)),
        ValueView::Float(x) => Ok(SemValue::Float(x)),
        ValueView::Ptr(address) => Ok(
            SemValue::Int(
                IntValue {
                    width: pointer_width,
                    bits: low_bits(pointer_width, address),
                    signed: false,
                },
            ),
        ),
        _ => Err(InterpErrorView::Message("value kind has no semantic-expression form"@)),
    }
}

/// What stands for `value` in a semantic expression. A pointer is the integer
/// that is its address; a tuple, a function, a state, a token or a unit is
/// nothing there.
pub fn to_sem_value(value: &Value, pointer_width: u32) -> (r: Result<SemValue, InterpError>)
    ensures
        gives(r, symbol_of(value@, pointer_width), |v: SemValue| v),
{
    match value {
        Value::Int(n) => Ok(SemValue::Int(*n)),
        Value::Float(x) => Ok(SemValue::Float(*x)),
        Value::Ptr(address) => Ok(SemValue::Int(IntValue::new(pointer_width, *address))),
        _ => Err(message("value kind has no semantic-expression form")),
    }
}

/// The symbols of a semantic expression over `operands`, up to the first that has
/// none.
pub open spec fn symbols_of(operands: Seq<ValueView>, pointer_width: u32) -> Result<
    Seq<SemValue>,
    InterpErrorView,
>
    decreases operands.len(),
{
    if operands.len() == 0 {
        Ok(Seq::empty())
    } else {
        match symbols_of(operands.drop_last(), pointer_width) {
            Err(e) => Err(e),
            Ok(symbols) => match symbol_of(operands.last(), pointer_width) {
                Err(e) => Err(e),
                Ok(symbol) => Ok(symbols.push(symbol)),
            },
        }
    }
}

proof fn failing_symbols_go_on(operands: Seq<ValueView>, n: int, pointer_width: u32)
    requires
        0 <= n <= operands.len(),
        symbols_of(operands.take(n), pointer_width) is Err,
    ensures
        symbols_of(operands, pointer_width) == symbols_of(operands.take(n), pointer_width),
    decreases operands.len() - n,
{
    if n < operands.len() {
        assert(operands.take(n + 1).drop_last() =~= operands.take(n));
        failing_symbols_go_on(operands, n + 1, pointer_width);
    } else {
        assert(operands.take(n) =~= operands);
    }
}

/// The symbols a semantic expression is evaluated on: one for each operand.
pub fn symbols(operands: &Vec<Value>, pointer_width: u32) -> (r: Result<Vec<SemValue>, InterpError>)
    ensures
        gives(r, symbols_of(value_views(operands@), pointer_width), |v: Vec<SemValue>| v@),
{
    let ghost all = value_views(operands@);
    let mut found: Vec<SemValue> = Vec::new();
    let mut i: usize = 0;
    assert(found@ =~= Seq::empty());
    while i < operands.len()
        invariant
            i <= operands.len(),
            all == value_views(operands@),
            symbols_of(all.take(i as int), pointer_width) == Ok::<Seq<SemValue>, InterpErrorView>(
                found@,
            ),
        decreases operands.len() - i,
    {
        proof {
            assert(all.take(i + 1).drop_last() =~= all.take(i as int));
            assert(all.take(i + 1).last() == operands@[i as int]@);
        }
        match to_sem_value(&operands[i], pointer_width) {
            Ok(symbol) => found.push(symbol),
            Err(e) => {
                proof {
                    failing_symbols_go_on(all, i + 1, pointer_width);
                }
                return Err(e);
            },
        }
        i += 1;
    }
    assert(all.take(all.len() as int) =~= all);
    Ok(found)
}

impl ContextView {
    /// What evaluating `op` through its semantic expression gives, where that
    /// expression comes to `result` on the symbols of `operands`. An operation
    /// without one is named.
    pub open spec fn semantic_outcome(
        self,
        op: OpId,
        operands: Seq<ValueView>,
        pointer_width: u32,
        result: Option<SemValue>,
    ) -> Result<Seq<ValueView>, InterpErrorView> {
        let identity = self.identity(op);
        let spelled = identity.0 + "."@ + identity.1;
        match result {
            None => Err(InterpErrorView::Unsupported(spelled)),
            Some(value) => match symbols_of(operands, pointer_width) {
                Err(e) => Err(e),
                Ok(_) => if self.ir.op(op)->0.results.len() != 1 {
                    Err(InterpErrorView::Message(spelled + " must have exactly one result"@))
                } else {
                    match typed_result(value, self.result_data(op), pointer_width) {
                        Err(e) => Err(e),
                        Ok(v) => Ok(seq![v]),
                    }
                },
            },
        }
    }

    /// The type of the first result of `op`.
    pub open spec fn result_data(self, op: OpId) -> TypeView {
        self.types[self.type_of(self.ir.op(op)->0.results[0]).0 as int]
    }

    /// Whether `result` is one an evaluator hands over for `op`: the results of the
    /// operation are typed, and a float is in the format the type declares.
    pub open spec fn semantic_fits(self, op: OpId, result: Option<SemValue>) -> bool {
        &&& self.readable(op)
        &&& self.values_typed(self.ir.op(op)->0.results)
        &&& self.ir.op(op)->0.results.len() == 1 ==> match (self.result_data(op), result) {
            (TypeView::Float(exponent, mantissa), Some(SemValue::Float(x))) => x.exponent
                == exponent && x.mantissa == mantissa,
            _ => true,
        }
    }
}

/// Evaluates `op` through its semantic expression, which comes to `result`:
/// `None` where the operation has no such expression. Semantic evaluation coerces
/// widths freely, so the result is pinned back to the type the IR declares.
pub fn eval_semantic(
    context: &Context,
    op: OpHandle,
    operands: &Vec<Value>,
    pointer_width: u32,
    result: Option<SemValue>,
) -> (r: Result<Vec<Value>, InterpError>)
    requires
        context.inv(),
        context@.semantic_fits(op.id, result),
    ensures
        gives(
            r,
            context@.semantic_outcome(op.id, value_views(operands@), pointer_width, result),
            |v: Vec<Value>| value_views(v@),
        ),
{
    let (dialect, name) = context.op_identity(op.id);
    let value = match result {
        Some(value) => value,
        None => {
            return Err(InterpError::Unsupported(cat3(dialect, ".", name)));
        },
    };
    if let Err(e) = symbols(operands, pointer_width) {
        return Err(e);
    }
    let results = context.results_of(op.id);
    if results.len() != 1 {
        let spelled = cat3(dialect, ".", name);
        return Err(InterpError::Message(cat2(spelled.as_str(), " must have exactly one result")));
    }
    assert(context@.ir.value(context@.ir.op(op.id)->0.results[0]) is Some);
    let ty = context.get_value(results[0]).ty;
    match from_sem_value(context, value, ty, pointer_width) {
        Ok(v) => {
            let values = vec![v];
            assert(value_views(values@) =~= seq![v@]);
            Ok(values)
        },
        Err(e) => Err(e),
    }
}

} // verus!

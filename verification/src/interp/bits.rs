//! How the operations on the bits of floating-point values evaluate themselves.
use vstd::prelude::*;
use crate::access::str_attr;
use crate::context::Context;
use crate::context::ContextView;
use crate::dialects::fp::bits::abs_bits;
use crate::dialects::fp::bits::class_names_are_distinct;
use crate::dialects::fp::bits::class_of;
use crate::dialects::fp::bits::classify_float;
use crate::dialects::fp::bits::copysign_bits;
use crate::dialects::fp::bits::is_negative;
use crate::dialects::fp::bits::neg_bits;
use crate::dialects::fp::bits::parse_class;
use crate::dialects::fp::bits::sign_bit;
use crate::dialects::fp::bits::AbsOp;
use crate::dialects::fp::bits::ClassifyOp;
use crate::dialects::fp::bits::CopySignOp;
use crate::dialects::fp::bits::FloatWidth;
use crate::dialects::fp::bits::NegOp;
use crate::dialects::fp::bits::SignBitOp;
use crate::dialects::fp::round::FenceOp;
use crate::interp::leaf::one;
use crate::interp::leaf::Interp;
use crate::interp::leaf::Outcome;
use crate::interp::low_bits;
use crate::interp::memory::Memory;
use crate::interp::memory::MemoryView;
use crate::interp::message;
use crate::interp::FloatValue;
use crate::interp::IntValue;
use crate::interp::InterpError;
use crate::interp::InterpErrorView;
use crate::interp::Value;
use crate::interp::ValueView;

verus! {

/// The width of a value in one of the formats whose bits are known.
pub open spec fn width_of(x: FloatValue) -> Option<FloatWidth> {
    if x.exponent == 8 && x.mantissa == 23 {
        Some(FloatWidth::W32)
    } else if x.exponent == 11 && x.mantissa == 52 {
        Some(FloatWidth::W64)
    } else {
        None
    }
}

/// The format of a float, where it is one with bit operations.
pub fn width_of_float(x: &FloatValue) -> (r: Option<FloatWidth>)
    ensures
        r == width_of(*x),
{
    if x.exponent == 8 && x.mantissa == 23 {
        Some(FloatWidth::W32)
    } else if x.exponent == 11 && x.mantissa == 52 {
        Some(FloatWidth::W64)
    } else {
        None
    }
}

/// Whether a value is in one of those formats, where it is a float.
pub open spec fn known_format(value: ValueView) -> bool {
    value is Float ==> width_of(value->Float_0) is Some
}

/// What is said of a value that is no float.
pub open spec fn no_float() -> InterpErrorView {
    InterpErrorView::Message("floating bit operation requires a float"@)
}

fn float(value: &Value) -> (r: Result<FloatValue, InterpError>)
    ensures
        match value@ {
            ValueView::Float(x) => r == Ok::<FloatValue, InterpError>(x),
            _ => r is Err && r->Err_0@ == no_float(),
        },
{
    match value {
        Value::Float(x) => Ok(*x),
        _ => Err(message("floating bit operation requires a float")),
    }
}

/// A truth value as an integer of one bit.
pub open spec fn truth(b: bool) -> ValueView {
    ValueView::Int(
        IntValue {
            width: 1,
            bits: low_bits(
                1,
                if b {
                    1
                } else {
                    0
                },
            ),
            signed: false,
        },
    )
}

fn truth_value(b: bool) -> (r: Value)
    ensures
        r@ == truth(b),
{
    let bits: u64 = if b {
        1
    } else {
        0
    };
    Value::Int(IntValue::new(1, bits))
}

/// A value with other bits, in the format it is of.
pub open spec fn with_bits(x: FloatValue, bits: u64) -> ValueView {
    ValueView::Float(FloatValue { bits, ..x })
}

impl Interp for NegOp {
    open spec fn evaluable(
        &self,
        context: ContextView,
        operands: Seq<ValueView>,
        memory: MemoryView,
    ) -> bool {
        operands.len() > 0 && known_format(operands[0])
    }

    open spec fn outcome(
        &self,
        context: ContextView,
        operands: Seq<ValueView>,
        memory: MemoryView,
    ) -> Outcome {
        (
            memory,
            match operands[0] {
                ValueView::Float(x) => Ok(
                    seq![with_bits(x, x.bits ^ sign_bit(width_of(x)->0))],
                ),
                _ => Err(no_float()),
            },
        )
    }

    fn evaluate(&self, context: &Context, operands: &Vec<Value>, memory: &mut Memory) -> (r: Result<
        Vec<Value>,
        InterpError,
    >) {
        assert(crate::interp::value_views(operands@)[0] == operands@[0]@);
        let x = match float(&operands[0]) {
            Ok(x) => x,
            Err(e) => {
                return Err(e);
            },
        };
        let width = width_of_float(&x).unwrap();
        Ok(one(Value::Float(FloatValue { bits: neg_bits(width, x.bits), ..x })))
    }
}

impl Interp for AbsOp {
    open spec fn evaluable(
        &self,
        context: ContextView,
        operands: Seq<ValueView>,
        memory: MemoryView,
    ) -> bool {
        operands.len() > 0 && known_format(operands[0])
    }

    open spec fn outcome(
        &self,
        context: ContextView,
        operands: Seq<ValueView>,
        memory: MemoryView,
    ) -> Outcome {
        (
            memory,
            match operands[0] {
                ValueView::Float(x) => Ok(
                    seq![with_bits(x, x.bits & !sign_bit(width_of(x)->0))],
                ),
                _ => Err(no_float()),
            },
        )
    }

    fn evaluate(&self, context: &Context, operands: &Vec<Value>, memory: &mut Memory) -> (r: Result<
        Vec<Value>,
        InterpError,
    >) {
        assert(crate::interp::value_views(operands@)[0] == operands@[0]@);
        let x = match float(&operands[0]) {
            Ok(x) => x,
            Err(e) => {
                return Err(e);
            },
        };
        let width = width_of_float(&x).unwrap();
        Ok(one(Value::Float(FloatValue { bits: abs_bits(width, x.bits), ..x })))
    }
}

impl Interp for CopySignOp {
    open spec fn evaluable(
        &self,
        context: ContextView,
        operands: Seq<ValueView>,
        memory: MemoryView,
    ) -> bool {
        operands.len() > 1 && known_format(operands[0]) && known_format(operands[1])
    }

    open spec fn outcome(
        &self,
        context: ContextView,
        operands: Seq<ValueView>,
        memory: MemoryView,
    ) -> Outcome {
        (
            memory,
            match (operands[0], operands[1]) {
                (ValueView::Float(x), ValueView::Float(y)) => if width_of(x) != width_of(y) {
                    Err(InterpErrorView::Message("fp.copysign operands have different formats"@))
                } else {
                    let mask = sign_bit(width_of(x)->0);
                    Ok(seq![with_bits(x, (x.bits & !mask) | (y.bits & mask))])
                },
                _ => Err(no_float()),
            },
        )
    }

    fn evaluate(&self, context: &Context, operands: &Vec<Value>, memory: &mut Memory) -> (r: Result<
        Vec<Value>,
        InterpError,
    >) {
        assert(crate::interp::value_views(operands@)[0] == operands@[0]@);
        assert(crate::interp::value_views(operands@)[1] == operands@[1]@);
        let x = match float(&operands[0]) {
            Ok(x) => x,
            Err(e) => {
                return Err(e);
            },
        };
        let y = match float(&operands[1]) {
            Ok(y) => y,
            Err(e) => {
                return Err(e);
            },
        };
        let width = width_of_float(&x).unwrap();
        if width_of_float(&y).unwrap() != width {
            return Err(message("fp.copysign operands have different formats"));
        }
        Ok(one(Value::Float(FloatValue { bits: copysign_bits(width, x.bits, y.bits), ..x })))
    }
}

impl Interp for SignBitOp {
    open spec fn evaluable(
        &self,
        context: ContextView,
        operands: Seq<ValueView>,
        memory: MemoryView,
    ) -> bool {
        operands.len() > 0 && known_format(operands[0])
    }

    open spec fn outcome(
        &self,
        context: ContextView,
        operands: Seq<ValueView>,
        memory: MemoryView,
    ) -> Outcome {
        (
            memory,
            match operands[0] {
                ValueView::Float(x) => Ok(
                    seq![truth(x.bits & sign_bit(width_of(x)->0) != 0)],
                ),
                _ => Err(no_float()),
            },
        )
    }

    fn evaluate(&self, context: &Context, operands: &Vec<Value>, memory: &mut Memory) -> (r: Result<
        Vec<Value>,
        InterpError,
    >) {
        assert(crate::interp::value_views(operands@)[0] == operands@[0]@);
        let x = match float(&operands[0]) {
            Ok(x) => x,
            Err(e) => {
                return Err(e);
            },
        };
        let width = width_of_float(&x).unwrap();
        Ok(one(truth_value(is_negative(width, x.bits))))
    }
}

impl Interp for ClassifyOp {
    open spec fn evaluable(
        &self,
        context: ContextView,
        operands: Seq<ValueView>,
        memory: MemoryView,
    ) -> bool {
        &&& operands.len() > 0
        &&& known_format(operands[0])
        &&& context.str_attr(self.0.id, "class"@) is Some
        &&& context.class_failure(self.0.id) is None
    }

    open spec fn outcome(
        &self,
        context: ContextView,
        operands: Seq<ValueView>,
        memory: MemoryView,
    ) -> Outcome {
        (
            memory,
            match operands[0] {
                ValueView::Float(x) => Ok(
                    seq![
                        truth(
                            class_of(width_of(x)->0, x.bits).spelling() == context.str_attr(
                                self.0.id,
                                "class"@,
                            )->0,
                        ),
                    ],
                ),
                _ => Err(no_float()),
            },
        )
    }

    fn evaluate(&self, context: &Context, operands: &Vec<Value>, memory: &mut Memory) -> (r: Result<
        Vec<Value>,
        InterpError,
    >) {
        assert(crate::interp::value_views(operands@)[0] == operands@[0]@);
        let x = match float(&operands[0]) {
            Ok(x) => x,
            Err(e) => {
                return Err(e);
            },
        };
        let width = width_of_float(&x).unwrap();
        let name = str_attr(context, self.0.id, "class").unwrap();
        let class = parse_class(name.as_str()).unwrap();
        let found = classify_float(width, x.bits);
        proof {
            if found.spelling() == class.spelling() {
                class_names_are_distinct(found, class);
            }
        }
        Ok(one(truth_value(found == class)))
    }
}

impl Interp for FenceOp {
    open spec fn evaluable(
        &self,
        context: ContextView,
        operands: Seq<ValueView>,
        memory: MemoryView,
    ) -> bool {
        operands.len() > 0
    }

    open spec fn outcome(
        &self,
        context: ContextView,
        operands: Seq<ValueView>,
        memory: MemoryView,
    ) -> Outcome {
        (memory, Ok(seq![operands[0]]))
    }

    fn evaluate(&self, context: &Context, operands: &Vec<Value>, memory: &mut Memory) -> (r: Result<
        Vec<Value>,
        InterpError,
    >) {
        assert(crate::interp::value_views(operands@)[0] == operands@[0]@);
        Ok(one(operands[0].copy()))
    }
}

} // verus!

//! The operations that evaluate themselves.
use vstd::prelude::*;
use vstd::string::*;
use crate::context::Context;
use crate::context::ContextView;
use crate::context::OpHandle;
use crate::dialects::builtin::arith::ConstantOp;
use crate::dialects::builtin::tuple::MakeTupleOp;
use crate::dialects::builtin::tuple::TupleGetOp;
use crate::dialects::ptr::produced_state;
use crate::dialects::ptr::AllocaOp;
use crate::dialects::ptr::LoadOp;
use crate::dialects::ptr::MemcpyOp;
use crate::dialects::ptr::MemsetOp;
use crate::dialects::ptr::StoreOp;
use crate::dialects::state::EntryStateOp;
use crate::ids::OpId;
use crate::interfaces::ConstantLike;
use crate::interp::copy_values;
use crate::interp::gives;
use crate::interp::low_bits;
use crate::interp::memory::written_integers_are_read_back;
use crate::interp::memory::Memory;
use crate::interp::memory::MemoryView;
use crate::interp::memory::MEMORY_BASE;
use crate::interp::message;
use crate::interp::signed_value;
use crate::interp::value_views;
use crate::interp::FloatValue;
use crate::interp::IntValue;
use crate::interp::InterpError;
use crate::interp::InterpErrorView;
use crate::interp::Value;
use crate::interp::ValueView;
use crate::text::cat3;
use crate::text::decimal;
use crate::text::decimal_string;
use crate::ty::float_bits;
use crate::ty::Type;
use crate::ty::TypeView;

verus! {

/// Where evaluating an operation leads: the memory it leaves, and the values its
/// results take or why it stopped.
pub type Outcome = (MemoryView, Result<Seq<ValueView>, InterpErrorView>);

/// Concrete evaluation of one leaf operation: `operands[i]` is the value of
/// operand `i`; the returned values bind to the op's results in order, a trailing
/// memory state among them.
pub trait Interp {
    /// Whether the operation has what its evaluation reads.
    spec fn evaluable(
        &self,
        context: ContextView,
        operands: Seq<ValueView>,
        memory: MemoryView,
    ) -> bool;

    spec fn outcome(
        &self,
        context: ContextView,
        operands: Seq<ValueView>,
        memory: MemoryView,
    ) -> Outcome;

    fn evaluate(&self, context: &Context, operands: &Vec<Value>, memory: &mut Memory) -> (r: Result<
        Vec<Value>,
        InterpError,
    >)
        requires
            context.inv(),
            old(memory).inv(),
            self.evaluable(context@, value_views(operands@), old(memory)@),
        ensures
            final(memory).inv(),
            final(memory)@ == self.outcome(context@, value_views(operands@), old(memory)@).0,
            gives(
                r,
                self.outcome(context@, value_views(operands@), old(memory)@).1,
                |v: Vec<Value>| value_views(v@),
            ),
    ;
}

/// The values of an operation's results, with the memory state it leaves behind
/// them where it leaves one.
pub open spec fn and_state(context: ContextView, op: OpId, values: Seq<ValueView>) -> Seq<ValueView> {
    if context.left_state(op) is Some {
        values.push(ValueView::State)
    } else {
        values
    }
}

fn push_state(context: &Context, op: &OpHandle, values: &mut Vec<Value>)
    requires
        context.inv(),
        context@.readable(op.id),
    ensures
        value_views(final(values)@) == and_state(context@, op.id, value_views(old(values)@)),
{
    if produced_state(context, op).is_some() {
        values.push(Value::State);
        assert(value_views(values@) =~= value_views(old(values)@).push(ValueView::State));
    }
}

/// A list of one value.
pub fn one(value: Value) -> (r: Vec<Value>)
    ensures
        value_views(r@) == seq![value@],
{
    let ghost view = value@;
    let mut r: Vec<Value> = Vec::new();
    r.push(value);
    assert(value_views(r@) =~= seq![view]);
    r
}

impl Interp for ConstantOp {
    open spec fn evaluable(
        &self,
        context: ContextView,
        operands: Seq<ValueView>,
        memory: MemoryView,
    ) -> bool {
        self.names_constant(context)
    }

    open spec fn outcome(
        &self,
        context: ContextView,
        operands: Seq<ValueView>,
        memory: MemoryView,
    ) -> Outcome {
        let (n, width) = self.constant(context);
        (
            memory,
            Ok(seq![ValueView::Int(IntValue { width, bits: low_bits(width, n as u64), signed: true })]),
        )
    }

    fn evaluate(&self, context: &Context, operands: &Vec<Value>, memory: &mut Memory) -> (r: Result<
        Vec<Value>,
        InterpError,
    >) {
        let (n, width) = self.constant_value(context);
        Ok(one(Value::Int(IntValue::new_signed(width, n))))
    }
}

impl Interp for MakeTupleOp {
    open spec fn evaluable(
        &self,
        context: ContextView,
        operands: Seq<ValueView>,
        memory: MemoryView,
    ) -> bool {
        true
    }

    open spec fn outcome(
        &self,
        context: ContextView,
        operands: Seq<ValueView>,
        memory: MemoryView,
    ) -> Outcome {
        (memory, Ok(seq![ValueView::Tuple(operands)]))
    }

    fn evaluate(&self, context: &Context, operands: &Vec<Value>, memory: &mut Memory) -> (r: Result<
        Vec<Value>,
        InterpError,
    >) {
        let items = copy_values(operands);
        let ghost views = value_views(items@);
        let tuple = Value::Tuple(items);
        assert(tuple@->Tuple_0 =~= views);
        Ok(one(tuple))
    }
}

impl Interp for TupleGetOp {
    open spec fn evaluable(
        &self,
        context: ContextView,
        operands: Seq<ValueView>,
        memory: MemoryView,
    ) -> bool {
        operands.len() > 0 && context.uint_attr(self.0.id, "index"@) is Some
    }

    open spec fn outcome(
        &self,
        context: ContextView,
        operands: Seq<ValueView>,
        memory: MemoryView,
    ) -> Outcome {
        let index = context.uint_attr(self.0.id, "index"@)->0;
        (
            memory,
            match operands[0] {
                ValueView::Tuple(elements) => if index < elements.len() {
                    Ok(seq![elements[index as int]])
                } else {
                    Err(
                        InterpErrorView::Message(
                            "tuple_get index "@ + decimal(index) + " out of bounds"@,
                        ),
                    )
                },
                _ => Err(InterpErrorView::Message("tuple_get operand must be a tuple"@)),
            },
        )
    }

    fn evaluate(&self, context: &Context, operands: &Vec<Value>, memory: &mut Memory) -> (r: Result<
        Vec<Value>,
        InterpError,
    >) {
        assert(value_views(operands@)[0] == operands@[0]@);
        match &operands[0] {
            Value::Tuple(elements) => {
                let index: u64 = self.index(context);
                if index < elements.len() as u64 {
                    assert(operands@[0]@->Tuple_0[index as int] == elements@[index as int]@);
                    Ok(one(elements[index as usize].copy()))
                } else {
                    let text = cat3(
                        "tuple_get index ",
                        decimal_string(index).as_str(),
                        " out of bounds",
                    );
                    Err(message(text.as_str()))
                }
            },
            _ => Err(message("tuple_get operand must be a tuple")),
        }
    }
}

impl Interp for EntryStateOp {
    open spec fn evaluable(
        &self,
        context: ContextView,
        operands: Seq<ValueView>,
        memory: MemoryView,
    ) -> bool {
        true
    }

    open spec fn outcome(
        &self,
        context: ContextView,
        operands: Seq<ValueView>,
        memory: MemoryView,
    ) -> Outcome {
        (memory, Ok(seq![ValueView::State]))
    }

    fn evaluate(&self, context: &Context, operands: &Vec<Value>, memory: &mut Memory) -> (r: Result<
        Vec<Value>,
        InterpError,
    >) {
        Ok(one(Value::State))
    }
}

impl Interp for AllocaOp {
    open spec fn evaluable(
        &self,
        context: ContextView,
        operands: Seq<ValueView>,
        memory: MemoryView,
    ) -> bool {
        let size = context.uint_attr(self.0.id, "size"@);
        let align = context.uint_attr(self.0.id, "align"@);
        &&& context.readable(self.0.id)
        &&& size is Some && size->0 <= u64::MAX
        &&& align is Some && align->0 <= u64::MAX
        &&& memory.place(align->0 as u64) + size->0 <= u64::MAX
        &&& memory.place(align->0 as u64) + size->0 - MEMORY_BASE <= usize::MAX
    }

    open spec fn outcome(
        &self,
        context: ContextView,
        operands: Seq<ValueView>,
        memory: MemoryView,
    ) -> Outcome {
        let size = context.uint_attr(self.0.id, "size"@)->0 as u64;
        let align = context.uint_attr(self.0.id, "align"@)->0 as u64;
        (
            memory.allocated(size, align),
            Ok(
                and_state(
                    context,
                    self.0.id,
                    seq![ValueView::Ptr(memory.place(align) as u64)],
                ),
            ),
        )
    }

    fn evaluate(&self, context: &Context, operands: &Vec<Value>, memory: &mut Memory) -> (r: Result<
        Vec<Value>,
        InterpError,
    >) {
        let size: u64 = self.size(context);
        let align: u64 = self.align(context);
        let address: u64 = memory.allocate(size, align);
        let mut r = one(Value::Ptr(address));
        push_state(context, &self.0, &mut r);
        Ok(r)
    }
}

/// Whether values of a type can be read and written: the types whose bits the
/// memory can hold in one access, and those it reports.
pub open spec fn accessible(ty: TypeView) -> bool {
    match ty {
        TypeView::Integer(width) => width <= 64,
        TypeView::Float(exponent, mantissa) => float_bits(exponent, mantissa) <= 64,
        _ => true,
    }
}

/// What reading a value of type `ty` at `address` gives.
pub open spec fn reading_typed(memory: MemoryView, ty: TypeView, address: u64) -> Result<
    ValueView,
    InterpErrorView,
> {
    match ty {
        TypeView::Integer(width) => match memory.reading_int(address, width) {
            Ok(n) => Ok(ValueView::Int(n)),
            Err(e) => Err(e),
        },
        TypeView::Float(exponent, mantissa) => match memory.reading_int(
            address,
            float_bits(exponent, mantissa) as u32,
        ) {
            Ok(n) => Ok(ValueView::Float(FloatValue { exponent, mantissa, bits: n.bits })),
            Err(e) => Err(e),
        },
        TypeView::Ptr(_) => match memory.reading_int(address, 64) {
            Ok(n) => Ok(ValueView::Ptr(n.bits)),
            Err(e) => Err(e),
        },
        _ => Err(InterpErrorView::Message("loads of this type are not interpretable yet"@)),
    }
}

/// The integer that is written for `value` of type `ty`: none where it is no
/// value of the type.
pub open spec fn stored(ty: TypeView, value: ValueView) -> Option<IntValue> {
    match (ty, value) {
        (TypeView::Integer(_), ValueView::Int(n)) => Some(n),
        (TypeView::Float(exponent, mantissa), ValueView::Float(x)) => Some(
            IntValue {
                width: float_bits(exponent, mantissa) as u32,
                bits: low_bits(float_bits(exponent, mantissa) as u32, x.bits),
                signed: false,
            },
        ),
        (TypeView::Ptr(_), ValueView::Ptr(target)) => Some(
            IntValue { width: 64, bits: low_bits(64, target), signed: false },
        ),
        _ => None,
    }
}

/// Where writing `value` as a value of type `ty` at `address` leads and what it
/// gives.
pub open spec fn writing_typed(memory: MemoryView, ty: TypeView, address: u64, value: ValueView) -> (
    MemoryView,
    Result<(), InterpErrorView>,
) {
    if !(ty is Integer || ty is Float || ty is Ptr) {
        (memory, Err(InterpErrorView::Message("stores of this type are not interpretable yet"@)))
    } else {
        match stored(ty, value) {
            Some(n) => memory.writing_int(address, n),
            None => (memory, Err(InterpErrorView::Message("store value must match the pointee"@))),
        }
    }
}

/// Whether an integer is at most 64 bits wide.
pub open spec fn narrow(value: ValueView) -> bool {
    value matches ValueView::Int(n) ==> n.width <= 64
}

/// Reads a value of type `ty` at `address`.
pub fn read_typed(memory: &Memory, ty: &Type, address: u64) -> (r: Result<Value, InterpError>)
    requires
        memory.inv(),
        accessible(ty@),
    ensures
        gives(r, reading_typed(memory@, ty@, address), |v: Value| v@),
{
    match ty {
        Type::Integer(t) => match memory.read_int(address, t.width) {
            Ok(n) => Ok(Value::Int(n)),
            Err(e) => Err(e),
        },
        Type::Float(t) => match memory.read_int(address, t.bit_width() as u32) {
            Ok(n) => Ok(
                Value::Float(
                    FloatValue { exponent: t.exponent, mantissa: t.mantissa, bits: n.bits },
                ),
            ),
            Err(e) => Err(e),
        },
        Type::Ptr(_) => match memory.read_int(address, 64) {
            Ok(n) => Ok(Value::Ptr(n.bits)),
            Err(e) => Err(e),
        },
        _ => Err(message("loads of this type are not interpretable yet")),
    }
}

/// Writes `value` as a value of type `ty` at `address`.
pub fn write_typed(memory: &mut Memory, ty: &Type, address: u64, value: &Value) -> (r: Result<
    (),
    InterpError,
>)
    requires
        old(memory).inv(),
        accessible(ty@),
        narrow(value@),
    ensures
        final(memory).inv(),
        final(memory)@ == writing_typed(old(memory)@, ty@, address, value@).0,
        gives(r, writing_typed(old(memory)@, ty@, address, value@).1, |u: ()| u),
{
    let held: Option<IntValue> = match (ty, value) {
        (Type::Integer(_), Value::Int(n)) => Some(*n),
        (Type::Float(t), Value::Float(x)) => Some(IntValue::new(t.bit_width() as u32, x.bits)),
        (Type::Ptr(_), Value::Ptr(target)) => Some(IntValue::new(64, *target)),
        (Type::Integer(_), _) | (Type::Float(_), _) | (Type::Ptr(_), _) => None,
        _ => {
            return Err(message("stores of this type are not interpretable yet"));
        },
    };
    match held {
        Some(n) => memory.write_int(address, &n),
        None => Err(message("store value must match the pointee")),
    }
}

impl Interp for LoadOp {
    open spec fn evaluable(
        &self,
        context: ContextView,
        operands: Seq<ValueView>,
        memory: MemoryView,
    ) -> bool {
        &&& operands.len() > 0
        &&& context.readable(self.0.id)
        &&& context.ir.op(self.0.id)->0.results.len() > 0
        &&& context.values_typed(context.ir.op(self.0.id)->0.results)
        &&& accessible(
            context.types[context.type_of(context.ir.op(self.0.id)->0.results[0]).0 as int],
        )
    }

    open spec fn outcome(
        &self,
        context: ContextView,
        operands: Seq<ValueView>,
        memory: MemoryView,
    ) -> Outcome {
        let ty = context.types[context.type_of(context.ir.op(self.0.id)->0.results[0]).0 as int];
        (
            memory,
            match operands[0] {
                ValueView::Ptr(address) => match reading_typed(memory, ty, address) {
                    Ok(value) => Ok(and_state(context, self.0.id, seq![value])),
                    Err(e) => Err(e),
                },
                _ => Err(InterpErrorView::Message("ptr.load operand must be a pointer"@)),
            },
        )
    }

    fn evaluate(&self, context: &Context, operands: &Vec<Value>, memory: &mut Memory) -> (r: Result<
        Vec<Value>,
        InterpError,
    >) {
        assert(value_views(operands@)[0] == operands@[0]@);
        let address: u64 = match &operands[0] {
            Value::Ptr(address) => *address,
            _ => {
                return Err(message("ptr.load operand must be a pointer"));
            },
        };
        let result = context.results_of(self.0.id)[0];
        assert(context@.ir.value(context@.ir.op(self.0.id)->0.results[0]) is Some);
        let ty = context.get_type_data(context.get_value(result).ty);
        match read_typed(memory, ty, address) {
            Ok(value) => {
                let mut r = one(value);
                push_state(context, &self.0, &mut r);
                Ok(r)
            },
            Err(e) => Err(e),
        }
    }
}

fn no_values() -> (r: Vec<Value>)
    ensures
        value_views(r@) == Seq::<ValueView>::empty(),
{
    let r: Vec<Value> = Vec::new();
    assert(value_views(r@) =~= Seq::<ValueView>::empty());
    r
}

impl Interp for StoreOp {
    open spec fn evaluable(
        &self,
        context: ContextView,
        operands: Seq<ValueView>,
        memory: MemoryView,
    ) -> bool {
        &&& operands.len() > 1
        &&& narrow(operands[0])
        &&& context.readable(self.0.id)
        &&& context.ir.op(self.0.id)->0.operands.len() > 0
        &&& context.values_typed(context.ir.op(self.0.id)->0.operands)
        &&& accessible(
            context.types[context.type_of(context.ir.op(self.0.id)->0.operands[0]).0 as int],
        )
    }

    open spec fn outcome(
        &self,
        context: ContextView,
        operands: Seq<ValueView>,
        memory: MemoryView,
    ) -> Outcome {
        let ty = context.types[context.type_of(context.ir.op(self.0.id)->0.operands[0]).0 as int];
        match operands[1] {
            ValueView::Ptr(address) => {
                let (after, done) = writing_typed(memory, ty, address, operands[0]);
                (
                    after,
                    match done {
                        Ok(_) => Ok(and_state(context, self.0.id, Seq::empty())),
                        Err(e) => Err(e),
                    },
                )
            },
            _ => (
                memory,
                Err(InterpErrorView::Message("ptr.store destination must be a pointer"@)),
            ),
        }
    }

    fn evaluate(&self, context: &Context, operands: &Vec<Value>, memory: &mut Memory) -> (r: Result<
        Vec<Value>,
        InterpError,
    >) {
        assert(value_views(operands@)[0] == operands@[0]@);
        assert(value_views(operands@)[1] == operands@[1]@);
        let address: u64 = match &operands[1] {
            Value::Ptr(address) => *address,
            _ => {
                return Err(message("ptr.store destination must be a pointer"));
            },
        };
        let stored = context.operands_of(self.0.id)[0];
        assert(context@.ir.value(context@.ir.op(self.0.id)->0.operands[0]) is Some);
        let ty = context.get_type_data(context.get_value(stored).ty);
        if let Err(e) = write_typed(memory, ty, address, &operands[0]) {
            return Err(e);
        }
        let mut r = no_values();
        push_state(context, &self.0, &mut r);
        Ok(r)
    }
}

/// A value as a number of bytes: nothing where it is no integer, and a negative
/// one past every memory.
pub open spec fn count_of(value: ValueView) -> u64 {
    match value {
        ValueView::Int(n) => (signed_value(n) as i64) as u64,
        _ => 0,
    }
}

/// A value as a byte to fill with.
pub open spec fn byte_of(value: ValueView) -> u8 {
    match value {
        ValueView::Int(n) => (signed_value(n) as i64) as u8,
        _ => 0,
    }
}

fn number_of(value: &Value) -> (r: i64)
    ensures
        r == match value@ {
            ValueView::Int(n) => signed_value(n),
            _ => 0,
        },
{
    match value.to_i64() {
        Some(n) => n,
        None => 0,
    }
}

impl Interp for MemcpyOp {
    open spec fn evaluable(
        &self,
        context: ContextView,
        operands: Seq<ValueView>,
        memory: MemoryView,
    ) -> bool {
        operands.len() > 2 && context.readable(self.0.id)
    }

    open spec fn outcome(
        &self,
        context: ContextView,
        operands: Seq<ValueView>,
        memory: MemoryView,
    ) -> Outcome {
        match operands[0] {
            ValueView::Ptr(destination) => match operands[1] {
                ValueView::Ptr(source) => match memory.reading(source, count_of(operands[2])) {
                    Ok(bytes) => {
                        let (after, done) = memory.writing(destination, bytes);
                        (
                            after,
                            match done {
                                Ok(_) => Ok(and_state(context, self.0.id, Seq::empty())),
                                Err(e) => Err(e),
                            },
                        )
                    },
                    Err(e) => (memory, Err(e)),
                },
                _ => (memory, Err(InterpErrorView::Message("memcpy source must be a pointer"@))),
            },
            _ => (memory, Err(InterpErrorView::Message("memcpy destination must be a pointer"@))),
        }
    }

    fn evaluate(&self, context: &Context, operands: &Vec<Value>, memory: &mut Memory) -> (r: Result<
        Vec<Value>,
        InterpError,
    >) {
        assert(value_views(operands@)[0] == operands@[0]@);
        assert(value_views(operands@)[1] == operands@[1]@);
        assert(value_views(operands@)[2] == operands@[2]@);
        let destination: u64 = match &operands[0] {
            Value::Ptr(address) => *address,
            _ => {
                return Err(message("memcpy destination must be a pointer"));
            },
        };
        let source: u64 = match &operands[1] {
            Value::Ptr(address) => *address,
            _ => {
                return Err(message("memcpy source must be a pointer"));
            },
        };
        let size: u64 = number_of(&operands[2]) as u64;
        let bytes = match memory.read(source, size) {
            Ok(bytes) => bytes,
            Err(e) => {
                return Err(e);
            },
        };
        if let Err(e) = memory.write(destination, &bytes) {
            return Err(e);
        }
        let mut r = no_values();
        push_state(context, &self.0, &mut r);
        Ok(r)
    }
}

impl Interp for MemsetOp {
    open spec fn evaluable(
        &self,
        context: ContextView,
        operands: Seq<ValueView>,
        memory: MemoryView,
    ) -> bool {
        operands.len() > 2 && context.readable(self.0.id)
    }

    open spec fn outcome(
        &self,
        context: ContextView,
        operands: Seq<ValueView>,
        memory: MemoryView,
    ) -> Outcome {
        match operands[0] {
            ValueView::Ptr(destination) => {
                let (after, done) = memory.writing(
                    destination,
                    Seq::new(count_of(operands[2]) as nat, |i: int| byte_of(operands[1])),
                );
                (
                    after,
                    match done {
                        Ok(_) => Ok(and_state(context, self.0.id, Seq::empty())),
                        Err(e) => Err(e),
                    },
                )
            },
            _ => (memory, Err(InterpErrorView::Message("memset destination must be a pointer"@))),
        }
    }

    fn evaluate(&self, context: &Context, operands: &Vec<Value>, memory: &mut Memory) -> (r: Result<
        Vec<Value>,
        InterpError,
    >) {
        assert(value_views(operands@)[0] == operands@[0]@);
        assert(value_views(operands@)[1] == operands@[1]@);
        assert(value_views(operands@)[2] == operands@[2]@);
        let destination: u64 = match &operands[0] {
            Value::Ptr(address) => *address,
            _ => {
                return Err(message("memset destination must be a pointer"));
            },
        };
        let fill: u8 = number_of(&operands[1]) as u8;
        let size: u64 = number_of(&operands[2]) as u64;
        if !memory.contains(destination, size) {
            return Err(InterpError::OutOfBounds { address: destination, size });
        }
        let mut bytes: Vec<u8> = Vec::new();
        let mut i: u64 = 0;
        while i < size
            invariant
                i <= size,
                bytes.len() == i,
                forall|k: int| 0 <= k < i ==> bytes@[k] == fill,
            decreases size - i,
        {
            bytes.push(fill);
            i += 1;
        }
        assert(bytes@ =~= Seq::new(size as nat, |k: int| fill));
        if let Err(e) = memory.write(destination, &bytes) {
            return Err(e);
        }
        let mut r = no_values();
        push_state(context, &self.0, &mut r);
        Ok(r)
    }
}

/// What is stored as a value of a type is loaded again, where the type is of
/// whole bytes and the value is one of it. Memory holds no sign: an integer comes
/// back with the same bits, taken to be unsigned.
pub proof fn stored_values_are_loaded(
    memory: MemoryView,
    ty: TypeView,
    address: u64,
    value: ValueView,
)
    requires
        accessible(ty),
        match (ty, value) {
            (TypeView::Integer(width), ValueView::Int(n)) => n.width == width && width % 8 == 0
                && n.bits == low_bits(width, n.bits) && memory.holds(address, (width / 8) as nat),
            (TypeView::Float(exponent, mantissa), ValueView::Float(x)) => {
                let width = float_bits(exponent, mantissa) as u32;
                x.exponent == exponent && x.mantissa == mantissa && width % 8 == 0 && x.bits
                    == low_bits(width, x.bits) && memory.holds(address, (width / 8) as nat)
            },
            (TypeView::Ptr(_), ValueView::Ptr(_)) => memory.holds(address, 8),
            _ => false,
        },
    ensures
        reading_typed(writing_typed(memory, ty, address, value).0, ty, address) == Ok::<
            ValueView,
            InterpErrorView,
        >(
            match value {
                ValueView::Int(n) => ValueView::Int(IntValue { signed: false, ..n }),
                _ => value,
            },
        ),
{
    written_integers_are_read_back(memory, address, stored(ty, value)->0);
}

} // verus!

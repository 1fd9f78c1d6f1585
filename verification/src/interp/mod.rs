//! Executable semantics over the IR.
//!
//! Leaf operations evaluate themselves; control flow is a machine that walks
//! regions and asks for the evaluation of one leaf operation at a time.
pub mod bits;
pub mod control;
pub mod dispatch;
pub mod env;
pub mod laws;
pub mod leaf;
pub mod leaf_laws;
pub mod machine;
pub mod memory;
pub mod run;
pub mod semantic;

use vstd::prelude::*;
use vstd::string::*;
use vstd::arithmetic::power2::pow2;
use crate::ids::OpId;
use crate::text::cat5;

verus! {

/// An integer of an explicit width: its bits, none of them above the width, and
/// whether it is taken to be signed where it is widened.
#[derive(Debug, Clone, Copy, PartialEq, Eq, Structural)]
pub struct IntValue {
    pub width: u32,
    pub bits: u64,
    pub signed: bool,
}

/// A floating-point number as its bits in the format they are of.
#[derive(Debug, Clone, Copy, PartialEq, Eq, Structural)]
pub struct FloatValue {
    pub exponent: u32,
    pub mantissa: u32,
    pub bits: u64,
}

/// A concrete value: an integer of explicit width, a float, a tuple, a pointer as
/// a byte address in one flat memory, or one of the tokens that carry no bits.
#[derive(Debug)]
pub enum Value {
    Int(IntValue),
    Float(FloatValue),
    Tuple(Vec<Value>),
    Ptr(u64),
    /// A λ node: what a call takes as its callee.
    Function(OpId),
    State,
    Token,
    Unit,
}

/// What a concrete value is.
pub ghost enum ValueView {
    Int(IntValue),
    Float(FloatValue),
    Tuple(Seq<ValueView>),
    Ptr(u64),
    Function(OpId),
    State,
    Token,
    Unit,
}

/// What `value` is.
pub open spec fn value_view(value: Value) -> ValueView
    decreases value,
{
    match value {
        Value::Int(n) => ValueView::Int(n),
        Value::Float(x) => ValueView::Float(x),
        Value::Tuple(items) => ValueView::Tuple(
            Seq::new(
                items.len() as nat,
                |i: int|
                    if 0 <= i < items.len() {
                        value_view(items[i])
                    } else {
                        arbitrary()
                    },
            ),
        ),
        Value::Ptr(address) => ValueView::Ptr(address),
        Value::Function(op) => ValueView::Function(op),
        Value::State => ValueView::State,
        Value::Token => ValueView::Token,
        Value::Unit => ValueView::Unit,
    }
}

impl View for Value {
    type V = ValueView;

    open spec fn view(&self) -> ValueView {
        value_view(*self)
    }
}

/// What each of `values` is.
pub open spec fn value_views(values: Seq<Value>) -> Seq<ValueView> {
    values.map_values(|v: Value| value_view(v))
}

/// The low `width` bits of `raw`, which are all of them from 64 on.
pub open spec fn low_bits(width: u32, raw: u64) -> u64 {
    if width >= 64 {
        raw
    } else {
        (raw as int % pow2(width as nat) as int) as u64
    }
}

/// The number the low bits of an integer stand for in two's complement.
pub open spec fn signed_value(n: IntValue) -> int {
    let bits = low_bits(n.width, n.bits);
    if n.width >= 64 {
        if bits >= 0x8000_0000_0000_0000 {
            bits - 0x1_0000_0000_0000_0000
        } else {
            bits as int
        }
    } else if n.width > 0 && bits >= pow2((n.width - 1) as nat) {
        bits - pow2(n.width as nat)
    } else {
        bits as int
    }
}

proof fn mask_is_modulus(raw: u64, width: u32)
    requires
        width < 64,
    ensures
        raw & ((1u64 << width) - 1) as u64 == low_bits(width, raw),
        (1u64 << width) == pow2(width as nat),
        (1u64 << width) >= 1,
{
    vstd::arithmetic::power2::lemma_pow2_strictly_increases(width as nat, 64);
    vstd::arithmetic::power2::lemma2_to64();
    vstd::arithmetic::power2::lemma_pow2_pos(width as nat);
    vstd::bits::lemma_u64_shl_is_mul(1, width as u64);
    vstd::bits::lemma_u64_low_bits_mask_is_mod(raw, width as nat);
    vstd::bits::lemma_low_bits_mask_values();
    assert(vstd::bits::low_bits_mask(width as nat) == pow2(width as nat) - 1);
}

impl IntValue {
    /// The unsigned integer of `width` bits that `raw` leaves.
    pub fn new(width: u32, raw: u64) -> (r: Self)
        ensures
            r == (IntValue { width, bits: low_bits(width, raw), signed: false }),
    {
        if width >= 64 {
            IntValue { width, bits: raw, signed: false }
        } else {
            proof {
                mask_is_modulus(raw, width);
            }
            IntValue { width, bits: raw & ((1u64 << width) - 1), signed: false }
        }
    }

    /// The signed integer of `width` bits that `n` leaves.
    pub fn new_signed(width: u32, n: i64) -> (r: Self)
        ensures
            r == (IntValue { width, bits: low_bits(width, n as u64), signed: true }),
    {
        IntValue { signed: true, ..IntValue::new(width, n as u64) }
    }
}

impl Value {
    /// A copy that is the same value.
    pub fn copy(&self) -> (r: Self)
        ensures
            r@ == self@,
        decreases self,
    {
        match self {
            Value::Int(n) => Value::Int(*n),
            Value::Float(x) => Value::Float(*x),
            Value::Tuple(items) => {
                let mut copies: Vec<Value> = Vec::new();
                let mut i: usize = 0;
                while i < items.len()
                    invariant
                        i <= items.len(),
                        *self == Value::Tuple(*items),
                        copies.len() == i,
                        forall|j: int|
                            0 <= j < i ==> value_view(#[trigger] copies[j]) == value_view(items[j]),
                    decreases items.len() - i,
                {
                    assert(decreases_to!(*self => self->Tuple_0));
                    assert(decreases_to!(self->Tuple_0 => self->Tuple_0[i as int]));
                    let item = items[i].copy();
                    copies.push(item);
                    i += 1;
                }
                let r = Value::Tuple(copies);
                assert(value_view(r)->Tuple_0 =~= value_view(*self)->Tuple_0);
                r
            },
            Value::Ptr(address) => Value::Ptr(*address),
            Value::Function(op) => Value::Function(*op),
            Value::State => Value::State,
            Value::Token => Value::Token,
            Value::Unit => Value::Unit,
        }
    }

    /// The value as a signed integer: none but an integer is one.
    pub fn to_i64(&self) -> (r: Option<i64>)
        ensures
            match self@ {
                ValueView::Int(n) => r is Some && r->0 == signed_value(n),
                _ => r is None,
            },
    {
        match self {
            Value::Int(n) => {
                let bits: u64 = IntValue::new(n.width, n.bits).bits;
                if n.width >= 64 {
                    proof {
                        assert(bits as i64 as int == if bits >= 0x8000_0000_0000_0000u64 {
                            bits as int - 0x1_0000_0000_0000_0000int
                        } else {
                            bits as int
                        }) by (bit_vector);
                    }
                    return Some(bits as i64);
                }
                proof {
                    mask_is_modulus(n.bits, n.width);
                    vstd::arithmetic::div_mod::lemma_mod_bound(
                        n.bits as int,
                        pow2(n.width as nat) as int,
                    );
                }
                if n.width == 0 {
                    proof {
                        vstd::arithmetic::power2::lemma2_to64();
                    }
                    return Some(0);
                }
                proof {
                    vstd::arithmetic::power2::lemma_pow2_unfold(n.width as nat);
                    mask_is_modulus(n.bits, (n.width - 1) as u32);
                    vstd::arithmetic::power2::lemma2_to64();
                    vstd::arithmetic::power2::lemma_pow2_strictly_increases(
                        n.width as nat,
                        64,
                    );
                }
                let half: u64 = 1u64 << (n.width - 1);
                if bits >= half {
                    Some(-((half - (bits - half)) as i64))
                } else {
                    Some(bits as i64)
                }
            },
            _ => None,
        }
    }
}

/// Copies of `values`.
pub fn copy_values(values: &Vec<Value>) -> (r: Vec<Value>)
    ensures
        value_views(r@) == value_views(values@),
{
    let mut r: Vec<Value> = Vec::new();
    let mut i: usize = 0;
    while i < values.len()
        invariant
            i <= values.len(),
            r.len() == i,
            forall|k: int| 0 <= k < i ==> value_view(#[trigger] r@[k]) == value_view(values@[k]),
        decreases values.len() - i,
    {
        r.push(values[i].copy());
        i += 1;
    }
    assert(value_views(r@) =~= value_views(values@));
    r
}

/// Why an interpretation stopped.
#[derive(Debug)]
pub enum InterpError {
    /// The op neither evaluates itself nor declares a semantic expression.
    Unsupported(String),
    OutOfBounds { address: u64, size: u64 },
    Uninitialized { address: u64, size: u64 },
    Message(String),
}

/// What an interpretation error says.
pub ghost enum InterpErrorView {
    Unsupported(Seq<char>),
    OutOfBounds(u64, u64),
    Uninitialized(u64, u64),
    Message(Seq<char>),
}

impl View for InterpError {
    type V = InterpErrorView;

    open spec fn view(&self) -> InterpErrorView {
        match self {
            InterpError::Unsupported(name) => InterpErrorView::Unsupported(name@),
            InterpError::OutOfBounds { address, size } => InterpErrorView::OutOfBounds(
                *address,
                *size,
            ),
            InterpError::Uninitialized { address, size } => InterpErrorView::Uninitialized(
                *address,
                *size,
            ),
            InterpError::Message(text) => InterpErrorView::Message(text@),
        }
    }
}

/// The hexadecimal digit that stands for `d`.
pub open spec fn hex_digit(d: nat) -> char {
    if d < 10 {
        (48 + d) as char
    } else {
        (87 + d) as char
    }
}

/// The hexadecimal spelling of `n`, without leading zeros.
pub open spec fn hex(n: nat) -> Seq<char>
    decreases n,
{
    if n < 16 {
        seq![hex_digit(n)]
    } else {
        hex(n / 16).push(hex_digit(n % 16))
    }
}

fn hex_digit_str(d: u128) -> (s: &'static str)
    requires
        d < 16,
    ensures
        s@ == seq![hex_digit(d as nat)],
{
    proof {
        reveal_strlit("0");
        reveal_strlit("1");
        reveal_strlit("2");
        reveal_strlit("3");
        reveal_strlit("4");
        reveal_strlit("5");
        reveal_strlit("6");
        reveal_strlit("7");
        reveal_strlit("8");
        reveal_strlit("9");
        reveal_strlit("a");
        reveal_strlit("b");
        reveal_strlit("c");
        reveal_strlit("d");
        reveal_strlit("e");
        reveal_strlit("f");
    }
    let s: &'static str = if d == 0 {
        "0"
    } else if d == 1 {
        "1"
    } else if d == 2 {
        "2"
    } else if d == 3 {
        "3"
    } else if d == 4 {
        "4"
    } else if d == 5 {
        "5"
    } else if d == 6 {
        "6"
    } else if d == 7 {
        "7"
    } else if d == 8 {
        "8"
    } else if d == 9 {
        "9"
    } else if d == 10 {
        "a"
    } else if d == 11 {
        "b"
    } else if d == 12 {
        "c"
    } else if d == 13 {
        "d"
    } else if d == 14 {
        "e"
    } else {
        "f"
    };
    assert(s@ =~= seq![hex_digit(d as nat)]);
    s
}

/// Spells `n` in hexadecimal.
pub fn hex_string(n: u128) -> (s: String)
    ensures
        s@ == hex(n as nat),
    decreases n,
{
    if n < 16 {
        hex_digit_str(n).to_owned()
    } else {
        let mut s = hex_string(n / 16);
        let ghost head = s@;
        s.append(hex_digit_str(n % 16));
        assert(s@ =~= head.push(hex_digit((n % 16) as nat)));
        s
    }
}

impl InterpErrorView {
    /// The sentence that reports the error.
    pub open spec fn sentence(self) -> Seq<char> {
        match self {
            InterpErrorView::Unsupported(name) => "cannot interpret "@ + name,
            InterpErrorView::OutOfBounds(address, size) => "access of [0x"@ + hex(address as nat)
                + "..0x"@ + hex((address + size) as nat) + ") is out of bounds"@,
            InterpErrorView::Uninitialized(address, size) => "access of [0x"@ + hex(
                address as nat,
            ) + "..0x"@ + hex((address + size) as nat) + ") hits uninitialized bytes"@,
            InterpErrorView::Message(text) => text,
        }
    }
}

impl InterpError {
    /// The sentence that reports the error.
    pub fn message(&self) -> (s: String)
        ensures
            s@ == self@.sentence(),
    {
        match self {
            InterpError::Unsupported(name) => crate::text::cat2("cannot interpret ", name.as_str()),
            InterpError::OutOfBounds { address, size } => cat5(
                "access of [0x",
                hex_string(*address as u128).as_str(),
                "..0x",
                hex_string(*address as u128 + *size as u128).as_str(),
                ") is out of bounds",
            ),
            InterpError::Uninitialized { address, size } => cat5(
                "access of [0x",
                hex_string(*address as u128).as_str(),
                "..0x",
                hex_string(*address as u128 + *size as u128).as_str(),
                ") hits uninitialized bytes",
            ),
            InterpError::Message(text) => text.clone(),
        }
    }
}

/// Whether a result is what `expected` says, read through `view`.
pub open spec fn gives<T, V>(
    r: Result<T, InterpError>,
    expected: Result<V, InterpErrorView>,
    view: spec_fn(T) -> V,
) -> bool {
    match expected {
        Ok(v) => r is Ok && view(r->Ok_0) == v,
        Err(e) => r is Err && r->Err_0@ == e,
    }
}

/// An error that says `text`.
pub fn message(text: &str) -> (e: InterpError)
    ensures
        e@ == InterpErrorView::Message(text@),
{
    InterpError::Message(text.to_owned())
}

} // verus!

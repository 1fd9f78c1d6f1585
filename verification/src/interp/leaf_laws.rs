//! What leaves compute: of the memory they read and change, and of the values
//! they take and give.
use vstd::arithmetic::power2::pow2;
use vstd::prelude::*;
use crate::attributes::AttrView;
use crate::context::ContextView;
use crate::context::OpHandle;
use crate::dialects::builtin::arith::ConstantOp;
use crate::dialects::builtin::tuple::MakeTupleOp;
use crate::dialects::builtin::tuple::TupleGetOp;
use crate::dialects::fp::bits::AbsOp;
use crate::dialects::fp::bits::CopySignOp;
use crate::dialects::fp::bits::NegOp;
use crate::dialects::fp::bits::SignBitOp;
use crate::dialects::ptr::MemcpyOp;
use crate::dialects::ptr::MemsetOp;
use crate::dialects::ptr::StoreOp;
use crate::interp::dispatch::Leaf;
use crate::interp::leaf::Interp;
use crate::interp::leaf::Outcome;
use crate::interp::low_bits;
use crate::interp::memory::MEMORY_BASE;
use crate::interp::memory::MemoryView;
use crate::interp::signed_value;
use crate::interp::FloatValue;
use crate::interp::IntValue;
use crate::interp::ValueView;
use crate::ty::TypeView;

verus! {

/// The byte at `address`, where it is in the memory and was written.
pub open spec fn byte_at(memory: MemoryView, address: int) -> Option<u8> {
    if MEMORY_BASE <= address < MEMORY_BASE + memory.cells.len() {
        memory.cells[address - MEMORY_BASE]
    } else {
        None
    }
}

/// Whether an operation that leaves no value succeeded: it gives its memory
/// state where it leaves one, and nothing else.
pub open spec fn gives_nothing(context: ContextView, op: OpHandle, outcome: Outcome) -> bool {
    outcome.1 is Ok && outcome.1->Ok_0 == if context.left_state(op.id) is Some {
        seq![ValueView::State]
    } else {
        Seq::empty()
    }
}

/// A copy of `n` bytes that were all written, between ranges of the memory, leaves
/// at each byte of the destination what was at the byte of the source as far in,
/// and every other byte as it was. A range that is not in the memory, or a byte
/// that was not written, is an error, and nothing changes.
pub proof fn copies_move_the_bytes(
    context: ContextView,
    op: OpHandle,
    memory: MemoryView,
    destination: u64,
    source: u64,
    size: IntValue,
    n: int,
)
    requires
        memory.wf(),
        0 <= n == signed_value(size) <= i64::MAX,
    ensures
        ({
            let outcome = MemcpyOp(op).outcome(
                context,
                seq![ValueView::Ptr(destination), ValueView::Ptr(source), ValueView::Int(size)],
                memory,
            );
            let end = MEMORY_BASE + memory.cells.len();
            let fine = MEMORY_BASE <= destination && destination + n <= end && MEMORY_BASE <= source
                && source + n <= end && forall|i: int|
                0 <= i < n ==> (#[trigger] byte_at(memory, source + i)) is Some;
            &&& fine ==> gives_nothing(context, op, outcome)
            &&& !fine ==> outcome.1 is Err && outcome.0 == memory
            &&& fine ==> forall|a: int| #[trigger]
                byte_at(outcome.0, a) == if destination <= a < destination + n {
                    byte_at(memory, source + (a - destination))
                } else {
                    byte_at(memory, a)
                }
        }),
{
    let operands = seq![
        ValueView::Ptr(destination),
        ValueView::Ptr(source),
        ValueView::Int(size),
    ];
    let outcome = MemcpyOp(op).outcome(context, operands, memory);
    let end = MEMORY_BASE + memory.cells.len();
    let m = crate::interp::leaf::count_of(ValueView::Int(size));
    assert(m == n);
    let written = forall|i: int|
        0 <= i < n ==> (#[trigger] byte_at(memory, source + i)) is Some;
    assert(operands[0] == ValueView::Ptr(destination));
    assert(operands[1] == ValueView::Ptr(source));
    assert(operands[2] == ValueView::Int(size));
    if memory.holds(source, n as nat) {
        let cells = memory.at(source, n as nat);
        assert forall|i: int| 0 <= i < n implies #[trigger] cells[i] == byte_at(
            memory,
            source + i,
        ) by {}
        if written {
            assert forall|i: int| 0 <= i < cells.len() implies (#[trigger] cells[i]) is Some by {
                assert(byte_at(memory, source + i) is Some);
            }
        } else {
            let i = choose|i: int|
                0 <= i < n && !((#[trigger] byte_at(memory, source + i)) is Some);
            assert(cells[i] is None);
        }
    }
    if memory.holds(source, n as nat) && written && memory.holds(destination, n as nat) {
        let bytes = memory.reading(source, n as u64)->Ok_0;
        assert forall|a: int| #[trigger]
            byte_at(outcome.0, a) == if destination <= a < destination + n {
                byte_at(memory, source + (a - destination))
            } else {
                byte_at(memory, a)
            } by {
            if destination <= a < destination + n {
                assert(byte_at(memory, source + (a - destination)) is Some);
                assert(memory.at(source, n as nat)[a - destination] == byte_at(
                    memory,
                    source + (a - destination),
                ));
            }
        }
        assert(seq![ValueView::State] =~= Seq::empty().push(ValueView::State));
    }
}

/// A fill of `n` bytes of a range of the memory leaves the byte it is given at
/// each of them, and every other byte as it was. A range that is not in the
/// memory is an error, and nothing changes.
pub proof fn fills_write_the_byte(
    context: ContextView,
    op: OpHandle,
    memory: MemoryView,
    destination: u64,
    byte: IntValue,
    size: IntValue,
    n: int,
)
    requires
        memory.wf(),
        0 <= n == signed_value(size) <= i64::MAX,
        0 <= signed_value(byte) < 256,
    ensures
        ({
            let outcome = MemsetOp(op).outcome(
                context,
                seq![ValueView::Ptr(destination), ValueView::Int(byte), ValueView::Int(size)],
                memory,
            );
            let end = MEMORY_BASE + memory.cells.len();
            let fine = MEMORY_BASE <= destination && destination + n <= end;
            &&& fine ==> gives_nothing(context, op, outcome)
            &&& !fine ==> outcome.1 is Err && outcome.0 == memory
            &&& fine ==> forall|a: int| #[trigger]
                byte_at(outcome.0, a) == if destination <= a < destination + n {
                    Some(signed_value(byte) as u8)
                } else {
                    byte_at(memory, a)
                }
        }),
{
    let operands = seq![
        ValueView::Ptr(destination),
        ValueView::Int(byte),
        ValueView::Int(size),
    ];
    assert(operands[0] == ValueView::Ptr(destination));
    assert(operands[1] == ValueView::Int(byte));
    assert(operands[2] == ValueView::Int(size));
    assert(crate::interp::leaf::count_of(ValueView::Int(size)) == n);
    let x = signed_value(byte) as i64;
    assert(x as u8 == x) by (bit_vector)
        requires
            0 <= x < 256,
    ;
    assert(seq![ValueView::State] =~= Seq::empty().push(ValueView::State));
}

/// A store of an integer of whole bytes writes its bytes, the lowest first, from
/// the address on, and leaves every other byte as it was.
pub proof fn stores_write_low_bytes_first(
    context: ContextView,
    op: OpHandle,
    memory: MemoryView,
    value: IntValue,
    address: u64,
    width: u32,
)
    requires
        memory.wf(),
        value.width == width,
        0 < width <= 64,
        context.types[context.type_of(context.ir.op(op.id)->0.operands[0]).0 as int]
            == TypeView::Integer(width),
        MEMORY_BASE <= address,
        address + width / 8 <= MEMORY_BASE + memory.cells.len(),
    ensures
        ({
            let outcome = StoreOp(op).outcome(
                context,
                seq![ValueView::Int(value), ValueView::Ptr(address)],
                memory,
            );
            let n = (width / 8) as int;
            &&& gives_nothing(context, op, outcome)
            &&& forall|a: int| #[trigger]
                byte_at(outcome.0, a) == if address <= a < address + n {
                    Some(((value.bits as int / pow2((8 * (a - address)) as nat) as int) % 256) as u8)
                } else {
                    byte_at(memory, a)
                }
        }),
{
    let operands = seq![ValueView::Int(value), ValueView::Ptr(address)];
    assert(operands[0] == ValueView::Int(value));
    assert(operands[1] == ValueView::Ptr(address));
    let n = (width / 8) as nat;
    let outcome = StoreOp(op).outcome(context, operands, memory);
    let bytes = crate::interp::memory::low_bytes(value.bits as nat, n);
    low_bytes_are_digits(value.bits as nat, n);
    assert(seq![ValueView::State] =~= Seq::empty().push(ValueView::State));
    assert forall|a: int| #[trigger]
        byte_at(outcome.0, a) == if address <= a < address + n {
            Some(((value.bits as int / pow2((8 * (a - address)) as nat) as int) % 256) as u8)
        } else {
            byte_at(memory, a)
        } by {
        if address <= a < address + n {
            assert(bytes[a - address] == ((value.bits as int / pow2(
                (8 * (a - address)) as nat,
            ) as int) % 256) as u8);
        }
    }
}

proof fn low_bytes_are_digits(raw: nat, n: nat)
    ensures
        crate::interp::memory::low_bytes(raw, n).len() == n,
        forall|i: int|
            0 <= i < n ==> #[trigger] crate::interp::memory::low_bytes(raw, n)[i] == ((raw as int
                / pow2((8 * i) as nat) as int) % 256) as u8,
    decreases n,
{
    if n > 0 {
        low_bytes_are_digits(raw / 256, (n - 1) as nat);
        let rest = crate::interp::memory::low_bytes(raw / 256, (n - 1) as nat);
        let all = crate::interp::memory::low_bytes(raw, n);
        assert forall|i: int| 0 <= i < n implies #[trigger] all[i] == ((raw as int / pow2(
            (8 * i) as nat,
        ) as int) % 256) as u8 by {
            if i == 0 {
                vstd::arithmetic::power2::lemma2_to64();
                assert(raw as int / 1 == raw);
            } else {
                assert(all[i] == rest[i - 1]);
                vstd::arithmetic::power2::lemma2_to64();
                vstd::arithmetic::power2::lemma_pow2_adds(8, (8 * (i - 1)) as nat);
                vstd::arithmetic::power2::lemma_pow2_pos((8 * (i - 1)) as nat);
                vstd::arithmetic::div_mod::lemma_div_denominator(
                    raw as int,
                    256,
                    pow2((8 * (i - 1)) as nat) as int,
                );
            }
        }
    }
}

/// Taking an element of a tuple that was made gives the operand it was made of;
/// neither touches the memory.
pub proof fn made_tuples_give_their_elements(
    context: ContextView,
    make: OpHandle,
    get: OpHandle,
    elements: Seq<ValueView>,
    position: nat,
    memory: MemoryView,
)
    requires
        context.uint_attr(get.id, "index"@) == Some(position),
        position < elements.len(),
    ensures
        ({
            let made = MakeTupleOp(make).outcome(context, elements, memory);
            &&& made.0 == memory
            &&& made.1 is Ok
            &&& made.1->Ok_0.len() == 1
            &&& TupleGetOp(get).outcome(context, made.1->Ok_0, memory) == (
                memory,
                Ok::<Seq<ValueView>, crate::interp::InterpErrorView>(
                    seq![elements[position as int]],
                ),
            )
        }),
{
}

/// A constant gives the number it names where that fits its type, and leaves the
/// memory alone.
pub proof fn constants_give_their_number(
    context: ContextView,
    op: OpHandle,
    operands: Seq<ValueView>,
    memory: MemoryView,
    n: i64,
    width: u32,
)
    requires
        context.attr(op.id, "value"@) == Some(AttrView::Int(n as int)),
        context.types[context.type_of(context.ir.op(op.id)->0.results[0]).0 as int]
            == TypeView::Integer(width),
        0 < width <= 64,
        -(pow2((width - 1) as nat) as int) <= n < pow2((width - 1) as nat),
    ensures
        ({
            let outcome = ConstantOp(op).outcome(context, operands, memory);
            &&& outcome.0 == memory
            &&& outcome.1 is Ok
            &&& outcome.1->Ok_0.len() == 1
            &&& outcome.1->Ok_0[0] is Int
            &&& (outcome.1->Ok_0[0]->Int_0).width == width
            &&& signed_value(outcome.1->Ok_0[0]->Int_0) == n
        }),
{
    let raw = n as u64;
    low_bits_keep_small_numbers(n, width);
    let x = number_with(width, low_bits(width, raw), true);
    assert(signed_value(x) == n);
    assert(context.constant_value(op.id) == (n, width));
    assert(ConstantOp(op).outcome(context, operands, memory).1->Ok_0[0] == ValueView::Int(x));
}

/// The low bits of a number that fits in them stand for it in two's complement.
pub proof fn low_bits_keep_small_numbers(n: i64, width: u32)
    requires
        0 < width <= 64,
        -(pow2((width - 1) as nat) as int) <= n < pow2((width - 1) as nat),
    ensures
        forall|signed: bool| signed_value(
            #[trigger] number_with(width, low_bits(width, n as u64), signed),
        ) == n,
{
    let raw = n as u64;
    assert(raw as int == if n < 0 {
        n + 0x1_0000_0000_0000_0000
    } else {
        n as int
    }) by (bit_vector)
        requires
            raw == n as u64,
    ;
    vstd::arithmetic::power2::lemma2_to64();
    vstd::arithmetic::power2::lemma2_to64_rest();
    let p = pow2(width as nat) as int;
    let h = pow2((width - 1) as nat) as int;
    vstd::arithmetic::power2::lemma_pow2_pos((width - 1) as nat);
    vstd::arithmetic::power2::lemma_pow2_unfold(width as nat);
    assert(p == 2 * h);
    assert forall|signed: bool| signed_value(
        #[trigger] number_with(width, low_bits(width, raw), signed),
    ) == n by {
        let bits = low_bits(width, raw);
        if width < 64 {
            if n < 0 {
                vstd::arithmetic::power2::lemma_pow2_adds(width as nat, (64 - width) as nat);
                let q = pow2((64 - width) as nat) as int;
                assert(p * q == 0x1_0000_0000_0000_0000);
                assert((n + p * q) % p == n as int % p) by {
                    vstd::arithmetic::div_mod::lemma_mod_multiples_vanish(q, n as int, p);
                }
                assert(n as int % p == n + p) by {
                    vstd::arithmetic::div_mod::lemma_fundamental_div_mod_converse(
                        n as int,
                        p,
                        -1,
                        n + p,
                    );
                }
            } else {
                vstd::arithmetic::div_mod::lemma_small_mod(n as nat, p as nat);
            }
            assert(bits as int == if n < 0 {
                n + p
            } else {
                n as int
            });
            low_bits_again(width, bits);
        }
    }
}

proof fn low_bits_again(width: u32, bits: u64)
    requires
        width < 64,
        bits < pow2(width as nat),
    ensures
        low_bits(width, bits) == bits,
{
    vstd::arithmetic::div_mod::lemma_small_mod(bits as nat, pow2(width as nat));
}

/// An integer by its parts.
pub open spec fn number_with(width: u32, bits: u64, signed: bool) -> IntValue {
    IntValue { width, bits, signed }
}

/// The bit that holds the sign of a number in a format of 32 or 64 bits.
pub open spec fn sign_at(x: FloatValue) -> u64 {
    if x.exponent == 8 {
        31
    } else {
        63
    }
}

/// Whether a number is in the format of 32 bits or in that of 64.
pub open spec fn single_or_double(x: FloatValue) -> bool {
    x.exponent == 8 && x.mantissa == 23 || x.exponent == 11 && x.mantissa == 52
}

/// Bit `k` of `bits`.
pub open spec fn bit(bits: u64, k: u64) -> u64 {
    (bits >> k) & 1
}

/// Negating a number turns its sign bit, its magnitude has the sign bit clear,
/// and copying a sign takes the sign bit of the second number; every other bit is
/// that of the first, which also keeps its format. Asking for the sign bit gives
/// it. None of them touches the memory.
pub proof fn sign_operations_change_the_sign_alone(
    context: ContextView,
    op: OpHandle,
    x: FloatValue,
    y: FloatValue,
    memory: MemoryView,
    k: u64,
)
    requires
        single_or_double(x),
        y.exponent == x.exponent,
        y.mantissa == x.mantissa,
        k < 64,
    ensures
        ({
            let negated = NegOp(op).outcome(context, seq![ValueView::Float(x)], memory);
            let magnitude = AbsOp(op).outcome(context, seq![ValueView::Float(x)], memory);
            let signed = CopySignOp(op).outcome(
                context,
                seq![ValueView::Float(x), ValueView::Float(y)],
                memory,
            );
            let asked = SignBitOp(op).outcome(context, seq![ValueView::Float(x)], memory);
            &&& is_float(negated, memory, x)
            &&& is_float(magnitude, memory, x)
            &&& is_float(signed, memory, x)
            &&& asked.0 == memory
            &&& asked.1 is Ok && asked.1->Ok_0.len() == 1 && asked.1->Ok_0[0] is Int
            &&& asked.1->Ok_0[0]->Int_0.width == 1
            &&& asked.1->Ok_0[0]->Int_0.bits == bit(x.bits, sign_at(x))
            &&& k != sign_at(x) ==> bit(float_bits_of(negated), k) == bit(x.bits, k)
            &&& k != sign_at(x) ==> bit(float_bits_of(magnitude), k) == bit(x.bits, k)
            &&& k != sign_at(x) ==> bit(float_bits_of(signed), k) == bit(x.bits, k)
            &&& bit(float_bits_of(negated), sign_at(x)) == 1 - bit(x.bits, sign_at(x))
            &&& bit(float_bits_of(magnitude), sign_at(x)) == 0
            &&& bit(float_bits_of(signed), sign_at(x)) == bit(y.bits, sign_at(x))
        }),
{
    let (a, b, s) = (x.bits, y.bits, sign_at(x));
    let mask = if x.exponent == 8 {
        0x8000_0000u64
    } else {
        0x8000_0000_0000_0000u64
    };
    assert(seq![ValueView::Float(x), ValueView::Float(y)][0] == ValueView::Float(x));
    assert(seq![ValueView::Float(x), ValueView::Float(y)][1] == ValueView::Float(y));
    assert(seq![ValueView::Float(x)][0] == ValueView::Float(x));
    assert(k != s ==> {
        &&& ((a ^ mask) >> k) & 1 == (a >> k) & 1
        &&& ((a & !mask) >> k) & 1 == (a >> k) & 1
        &&& (((a & !mask) | (b & mask)) >> k) & 1 == (a >> k) & 1
    }) by (bit_vector)
        requires
            s == 31 && mask == 0x8000_0000u64 || s == 63 && mask == 0x8000_0000_0000_0000u64,
            k < 64,
    ;
    assert({
        &&& ((a ^ mask) >> s) & 1 == 1 - ((a >> s) & 1)
        &&& ((a & !mask) >> s) & 1 == 0
        &&& (((a & !mask) | (b & mask)) >> s) & 1 == (b >> s) & 1
        &&& (a & mask != 0) == ((a >> s) & 1 == 1)
        &&& (a >> s) & 1 <= 1
    }) by (bit_vector)
        requires
            s == 31 && mask == 0x8000_0000u64 || s == 63 && mask == 0x8000_0000_0000_0000u64,
    ;
    vstd::arithmetic::power2::lemma2_to64();
}

/// Whether an outcome is one number in the format of `x`, the memory unchanged.
pub open spec fn is_float(outcome: Outcome, memory: MemoryView, x: FloatValue) -> bool {
    &&& outcome.0 == memory
    &&& outcome.1 is Ok
    &&& outcome.1->Ok_0.len() == 1
    &&& outcome.1->Ok_0[0] is Float
    &&& outcome.1->Ok_0[0]->Float_0.exponent == x.exponent
    &&& outcome.1->Ok_0[0]->Float_0.mantissa == x.mantissa
}

/// The bits of the number an outcome gives.
pub open spec fn float_bits_of(outcome: Outcome) -> u64 {
    outcome.1->Ok_0[0]->Float_0.bits
}

/// A leaf is known by its name: the operations called as here evaluate as here.
pub proof fn leaves_are_known_by_name(context: ContextView, op: OpHandle)
    ensures
        context.identity(op.id) == ("builtin"@, "constant"@) <==> context.leaf(op) == Some(
            Leaf::Constant,
        ),
        context.identity(op.id) == ("builtin"@, "make_tuple"@) <==> context.leaf(op) == Some(
            Leaf::MakeTuple,
        ),
        context.identity(op.id) == ("builtin"@, "tuple_get"@) <==> context.leaf(op) == Some(
            Leaf::TupleGet,
        ),
        context.identity(op.id) == ("state"@, "entry_state"@) <==> context.leaf(op) == Some(
            Leaf::EntryState,
        ),
        context.identity(op.id) == ("ptr"@, "alloca"@) <==> context.leaf(op) == Some(Leaf::Alloca),
        context.identity(op.id) == ("ptr"@, "load"@) <==> context.leaf(op) == Some(Leaf::Load),
        context.identity(op.id) == ("ptr"@, "store"@) <==> context.leaf(op) == Some(Leaf::Store),
        context.identity(op.id) == ("ptr"@, "memcpy"@) <==> context.leaf(op) == Some(Leaf::Memcpy),
        context.identity(op.id) == ("ptr"@, "memset"@) <==> context.leaf(op) == Some(Leaf::Memset),
        context.identity(op.id) == ("fp"@, "neg"@) <==> context.leaf(op) == Some(Leaf::Neg),
        context.identity(op.id) == ("fp"@, "abs"@) <==> context.leaf(op) == Some(Leaf::Abs),
        context.identity(op.id) == ("fp"@, "copysign"@) <==> context.leaf(op) == Some(
            Leaf::CopySign,
        ),
        context.identity(op.id) == ("fp"@, "signbit"@) <==> context.leaf(op) == Some(Leaf::SignBit),
        context.identity(op.id) == ("fp"@, "classify"@) <==> context.leaf(op) == Some(
            Leaf::Classify,
        ),
        context.identity(op.id) == ("fp"@, "fence"@) <==> context.leaf(op) == Some(Leaf::Fence),
{
    reveal_strlit("builtin");
    reveal_strlit("state");
    reveal_strlit("ptr");
    reveal_strlit("fp");
    reveal_strlit("constant");
    reveal_strlit("make_tuple");
    reveal_strlit("tuple_get");
    reveal_strlit("alloca");
    reveal_strlit("load");
    reveal_strlit("store");
    reveal_strlit("memcpy");
    reveal_strlit("memset");
    reveal_strlit("neg");
    reveal_strlit("abs");
    reveal_strlit("copysign");
    reveal_strlit("signbit");
    reveal_strlit("classify");
    reveal_strlit("fence");
    assert("builtin"@.len() == 7 && "state"@.len() == 5 && "ptr"@.len() == 3 && "fp"@.len() == 2);
    assert("constant"@.len() == 8 && "make_tuple"@.len() == 10 && "tuple_get"@.len() == 9);
    assert("alloca"@.len() == 6 && "load"@.len() == 4 && "store"@.len() == 5);
    assert("memcpy"@.len() == 6 && "memset"@.len() == 6);
    assert("neg"@.len() == 3 && "abs"@.len() == 3 && "copysign"@.len() == 8);
    assert("signbit"@.len() == 7 && "classify"@.len() == 8 && "fence"@.len() == 5);
    assert("alloca"@[0] != "memcpy"@[0] && "alloca"@[0] != "memset"@[0]);
    assert("memcpy"@[3] != "memset"@[3]);
    assert("neg"@[0] != "abs"@[0]);
    assert("copysign"@[1] != "classify"@[1]);
}

} // verus!

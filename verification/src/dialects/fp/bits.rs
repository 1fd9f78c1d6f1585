//! Operations on the bits of a floating-point value: the sign, the magnitude and
//! the class. None of them rounds, and none depends on the environment.
use vstd::prelude::*;
use crate::access::str_attr;
use crate::context::Context;
use crate::context::ContextView;
use crate::context::OpHandle;
use crate::error::invalid;
use crate::error::verdict;
use crate::error::Error;
use crate::graph::DagView;
use crate::graph::MutDag;
use crate::graph::NodeId;
use crate::ids::OpId;
use crate::interfaces::SameOperandAndResultType;
use crate::interfaces::Speculatable;
use crate::sem::add_leaf;
use crate::sem::add_pair;
use crate::sem::add_single;
use crate::sem::with_leaf;
use crate::sem::with_pair;
use crate::sem::with_single;
use crate::sem::SymKind;
use crate::sem::SymPayload;
use crate::text::same;
use crate::ty::float_bits;
use crate::ty::Type;
use crate::ty::TypeView;

verus! {

/// A value with its sign turned.
#[derive(Debug, Clone, Copy)]
pub struct NegOp(pub OpHandle);

/// A value without its sign.
#[derive(Debug, Clone, Copy)]
pub struct AbsOp(pub OpHandle);

/// A magnitude with the sign of another value.
#[derive(Debug, Clone, Copy)]
pub struct CopySignOp(pub OpHandle);

/// The sign of a value.
#[derive(Debug, Clone, Copy)]
pub struct SignBitOp(pub OpHandle);

/// Whether a value is of a class.
#[derive(Debug, Clone, Copy)]
pub struct ClassifyOp(pub OpHandle);

impl SameOperandAndResultType for NegOp {

}

impl SameOperandAndResultType for AbsOp {

}

impl SameOperandAndResultType for CopySignOp {

}

impl Speculatable for NegOp {

}

impl Speculatable for AbsOp {

}

impl Speculatable for CopySignOp {

}

impl Speculatable for SignBitOp {

}

impl Speculatable for ClassifyOp {

}

/// The classes a floating-point value falls into.
#[derive(Debug, Clone, Copy, PartialEq, Eq, Structural)]
pub enum FloatClass {
    SignalingNaN,
    QuietNaN,
    NegativeInfinity,
    NegativeNormal,
    NegativeSubnormal,
    NegativeZero,
    PositiveZero,
    PositiveSubnormal,
    PositiveNormal,
    PositiveInfinity,
}

impl FloatClass {
    /// How the class is written.
    pub open spec fn spelling(self) -> Seq<char> {
        match self {
            FloatClass::SignalingNaN => "signaling_nan"@,
            FloatClass::QuietNaN => "quiet_nan"@,
            FloatClass::NegativeInfinity => "negative_infinity"@,
            FloatClass::NegativeNormal => "negative_normal"@,
            FloatClass::NegativeSubnormal => "negative_subnormal"@,
            FloatClass::NegativeZero => "negative_zero"@,
            FloatClass::PositiveZero => "positive_zero"@,
            FloatClass::PositiveSubnormal => "positive_subnormal"@,
            FloatClass::PositiveNormal => "positive_normal"@,
            FloatClass::PositiveInfinity => "positive_infinity"@,
        }
    }
}

/// The class `name` names.
pub fn parse_class(name: &str) -> (r: Option<FloatClass>)
    ensures
        match r {
            Some(class) => class.spelling() == name@,
            None => forall|class: FloatClass| #[trigger] class.spelling() != name@,
        },
{
    if same(name, "signaling_nan") {
        Some(FloatClass::SignalingNaN)
    } else if same(name, "quiet_nan") {
        Some(FloatClass::QuietNaN)
    } else if same(name, "negative_infinity") {
        Some(FloatClass::NegativeInfinity)
    } else if same(name, "negative_normal") {
        Some(FloatClass::NegativeNormal)
    } else if same(name, "negative_subnormal") {
        Some(FloatClass::NegativeSubnormal)
    } else if same(name, "negative_zero") {
        Some(FloatClass::NegativeZero)
    } else if same(name, "positive_zero") {
        Some(FloatClass::PositiveZero)
    } else if same(name, "positive_subnormal") {
        Some(FloatClass::PositiveSubnormal)
    } else if same(name, "positive_normal") {
        Some(FloatClass::PositiveNormal)
    } else if same(name, "positive_infinity") {
        Some(FloatClass::PositiveInfinity)
    } else {
        None
    }
}

/// No two classes are written alike.
pub proof fn class_names_are_distinct(a: FloatClass, b: FloatClass)
    requires
        a.spelling() == b.spelling(),
    ensures
        a == b,
{
    reveal_strlit("signaling_nan");
    reveal_strlit("quiet_nan");
    reveal_strlit("negative_infinity");
    reveal_strlit("negative_normal");
    reveal_strlit("negative_subnormal");
    reveal_strlit("negative_zero");
    reveal_strlit("positive_zero");
    reveal_strlit("positive_subnormal");
    reveal_strlit("positive_normal");
    reveal_strlit("positive_infinity");
    let x = a.spelling();
    let y = b.spelling();
    assert(x.len() == y.len());
    assert(x[0] == y[0]);
    assert(x[9] == y[9] || x.len() <= 9);
    assert(x[12] == y[12] || x.len() <= 12);
}

/// The widths the bit operations know.
#[derive(Debug, Clone, Copy, PartialEq, Eq, Structural)]
pub enum FloatWidth {
    W32,
    W64,
}

/// The bit that holds the sign.
pub open spec fn sign_bit(width: FloatWidth) -> u64 {
    match width {
        FloatWidth::W32 => 0x8000_0000,
        FloatWidth::W64 => 0x8000_0000_0000_0000,
    }
}

/// The bit that holds the sign.
pub fn sign_mask(width: FloatWidth) -> (m: u64)
    ensures
        m == sign_bit(width),
{
    match width {
        FloatWidth::W32 => 0x8000_0000,
        FloatWidth::W64 => 0x8000_0000_0000_0000,
    }
}

/// The bits of a value with its sign turned.
pub fn neg_bits(width: FloatWidth, bits: u64) -> (r: u64)
    ensures
        r == bits ^ sign_bit(width),
{
    bits ^ sign_mask(width)
}

/// The bits of a value without its sign.
pub fn abs_bits(width: FloatWidth, bits: u64) -> (r: u64)
    ensures
        r == bits & !sign_bit(width),
{
    bits & !sign_mask(width)
}

/// The bits of `magnitude` with the sign of `sign`.
pub fn copysign_bits(width: FloatWidth, magnitude: u64, sign: u64) -> (r: u64)
    ensures
        r == (magnitude & !sign_bit(width)) | (sign & sign_bit(width)),
{
    let mask: u64 = sign_mask(width);
    (magnitude & !mask) | (sign & mask)
}

/// Whether the sign of a value is set.
pub fn is_negative(width: FloatWidth, bits: u64) -> (r: bool)
    ensures
        r == (bits & sign_bit(width) != 0),
{
    bits & sign_mask(width) != 0
}

/// Turning a sign twice gives the value back, and taking it away after turning
/// it is taking it away.
pub proof fn signs_turn_back(width: FloatWidth, bits: u64)
    ensures
        (bits ^ sign_bit(width)) ^ sign_bit(width) == bits,
        (bits ^ sign_bit(width)) & !sign_bit(width) == bits & !sign_bit(width),
        (bits & !sign_bit(width)) & !sign_bit(width) == bits & !sign_bit(width),
{
    let m = sign_bit(width);
    assert((bits ^ m) ^ m == bits) by (bit_vector);
    assert((bits ^ m) & !m == bits & !m) by (bit_vector);
    assert((bits & !m) & !m == bits & !m) by (bit_vector);
}

/// A value with its own sign copied is itself, and a copied sign is the sign.
pub proof fn copied_sign_is_the_sign(width: FloatWidth, magnitude: u64, sign: u64)
    ensures
        (magnitude & !sign_bit(width)) | (magnitude & sign_bit(width)) == magnitude,
        ((magnitude & !sign_bit(width)) | (sign & sign_bit(width))) & sign_bit(width) == sign
            & sign_bit(width),
{
    let m = sign_bit(width);
    assert((magnitude & !m) | (magnitude & m) == magnitude) by (bit_vector);
    assert(((magnitude & !m) | (sign & m)) & m == sign & m) by (bit_vector);
}

/// How many bits the mantissa of a width has.
pub open spec fn mantissa_bits(width: FloatWidth) -> u64 {
    match width {
        FloatWidth::W32 => 23,
        FloatWidth::W64 => 52,
    }
}

/// The exponent field with every bit set.
pub open spec fn top_exponent(width: FloatWidth) -> u64 {
    match width {
        FloatWidth::W32 => 0xff,
        FloatWidth::W64 => 0x7ff,
    }
}

/// The exponent field of a value.
pub open spec fn exponent_of(width: FloatWidth, bits: u64) -> u64 {
    (bits >> mantissa_bits(width)) & top_exponent(width)
}

/// The mantissa field of a value.
pub open spec fn mantissa_of(width: FloatWidth, bits: u64) -> u64 {
    match width {
        FloatWidth::W32 => bits & 0x7f_ffff,
        FloatWidth::W64 => bits & 0xf_ffff_ffff_ffff,
    }
}

/// The bit that tells a quiet NaN from a signaling one.
pub open spec fn quiet_bit(width: FloatWidth) -> u64 {
    match width {
        FloatWidth::W32 => 0x40_0000,
        FloatWidth::W64 => 0x8_0000_0000_0000,
    }
}

/// The class of a value, by its bits.
pub open spec fn class_of(width: FloatWidth, bits: u64) -> FloatClass {
    let negative = bits & sign_bit(width) != 0;
    let exponent = exponent_of(width, bits);
    let mantissa = mantissa_of(width, bits);
    if exponent == top_exponent(width) {
        if mantissa != 0 {
            if mantissa & quiet_bit(width) != 0 {
                FloatClass::QuietNaN
            } else {
                FloatClass::SignalingNaN
            }
        } else if negative {
            FloatClass::NegativeInfinity
        } else {
            FloatClass::PositiveInfinity
        }
    } else if exponent == 0 {
        if mantissa == 0 {
            if negative {
                FloatClass::NegativeZero
            } else {
                FloatClass::PositiveZero
            }
        } else if negative {
            FloatClass::NegativeSubnormal
        } else {
            FloatClass::PositiveSubnormal
        }
    } else if negative {
        FloatClass::NegativeNormal
    } else {
        FloatClass::PositiveNormal
    }
}

/// The class of a value, by its bits.
pub fn classify_float(width: FloatWidth, bits: u64) -> (r: FloatClass)
    ensures
        r == class_of(width, bits),
{
    let negative = is_negative(width, bits);
    let (exponent, mantissa, top, quiet): (u64, u64, u64, u64) = match width {
        FloatWidth::W32 => ((bits >> 23u64) & 0xff, bits & 0x7f_ffff, 0xff, 0x40_0000),
        FloatWidth::W64 => (
            (bits >> 52u64) & 0x7ff,
            bits & 0xf_ffff_ffff_ffff,
            0x7ff,
            0x8_0000_0000_0000,
        ),
    };
    if exponent == top {
        if mantissa != 0 {
            if mantissa & quiet != 0 {
                FloatClass::QuietNaN
            } else {
                FloatClass::SignalingNaN
            }
        } else if negative {
            FloatClass::NegativeInfinity
        } else {
            FloatClass::PositiveInfinity
        }
    } else if exponent == 0 {
        if mantissa == 0 {
            if negative {
                FloatClass::NegativeZero
            } else {
                FloatClass::PositiveZero
            }
        } else if negative {
            FloatClass::NegativeSubnormal
        } else {
            FloatClass::PositiveSubnormal
        }
    } else if negative {
        FloatClass::NegativeNormal
    } else {
        FloatClass::PositiveNormal
    }
}

/// The class of a value with its sign turned.
pub open spec fn turned(class: FloatClass) -> FloatClass {
    match class {
        FloatClass::SignalingNaN => FloatClass::SignalingNaN,
        FloatClass::QuietNaN => FloatClass::QuietNaN,
        FloatClass::NegativeInfinity => FloatClass::PositiveInfinity,
        FloatClass::NegativeNormal => FloatClass::PositiveNormal,
        FloatClass::NegativeSubnormal => FloatClass::PositiveSubnormal,
        FloatClass::NegativeZero => FloatClass::PositiveZero,
        FloatClass::PositiveZero => FloatClass::NegativeZero,
        FloatClass::PositiveSubnormal => FloatClass::NegativeSubnormal,
        FloatClass::PositiveNormal => FloatClass::NegativeNormal,
        FloatClass::PositiveInfinity => FloatClass::NegativeInfinity,
    }
}

/// Turning the sign of a value turns the sign of its class and nothing else.
pub proof fn negation_turns_the_class(width: FloatWidth, bits: u64)
    ensures
        class_of(width, bits ^ sign_bit(width)) == turned(class_of(width, bits)),
{
    match width {
        FloatWidth::W32 => {
            assert(((bits ^ 0x8000_0000) >> 23u64) & 0xff == (bits >> 23u64) & 0xff) by (bit_vector);
            assert((bits ^ 0x8000_0000) & 0x7f_ffff == bits & 0x7f_ffff) by (bit_vector);
            assert(((bits ^ 0x8000_0000) & 0x8000_0000 != 0) == (bits & 0x8000_0000 == 0))
                by (bit_vector);
        },
        FloatWidth::W64 => {
            assert(((bits ^ 0x8000_0000_0000_0000) >> 52u64) & 0x7ff == (bits >> 52u64) & 0x7ff)
                by (bit_vector);
            assert((bits ^ 0x8000_0000_0000_0000) & 0xf_ffff_ffff_ffff == bits
                & 0xf_ffff_ffff_ffff) by (bit_vector);
            assert(((bits ^ 0x8000_0000_0000_0000) & 0x8000_0000_0000_0000 != 0) == (bits
                & 0x8000_0000_0000_0000 == 0)) by (bit_vector);
        },
    }
}

impl ContextView {
    /// Why a test of a class is wrong.
    pub open spec fn class_failure(self, op: OpId) -> Option<Seq<char>> {
        if exists|class: FloatClass| #[trigger] class.spelling() == self.str_attr(op, "class"@)->0 {
            None
        } else {
            Some("unknown floating-point class"@)
        }
    }

    /// How wide the floating-point result of an operation is, where it is one.
    pub open spec fn float_result_bits(self, op: OpId) -> Option<nat> {
        match self.types[self.type_of(self.ir.op(op)->0.results[0]).0 as int] {
            TypeView::Float(exponent, mantissa) => Some(float_bits(exponent, mantissa)),
            _ => None,
        }
    }
}

impl ClassifyOp {
    /// Checks that the class named is one.
    pub fn verify_impl(&self, context: &Context) -> (r: Result<(), Error>)
        requires
            context.inv(),
            context@.str_attr(self.0.id, "class"@) is Some,
        ensures
            verdict(r, context@.class_failure(self.0.id)),
    {
        let name = str_attr(context, self.0.id, "class").unwrap();
        match parse_class(name.as_str()) {
            Some(_) => Ok(()),
            None => Err(invalid("unknown floating-point class")),
        }
    }
}

/// A graph with the bits of the first operand changed by `kind` and `mask`.
pub open spec fn with_masked(
    g: DagView<SymKind, SymPayload>,
    width: u32,
    kind: SymKind,
    mask: u64,
) -> DagView<SymKind, SymPayload> {
    let n = g.nodes.len();
    let input = with_leaf(g, SymKind::Symbol, SymPayload::SymbolId(0));
    let bits = with_single(input, SymKind::Bitcast, NodeId(n as u32));
    let constant = with_leaf(bits, SymKind::Constant, SymPayload::Int(width, mask));
    let changed = with_pair(
        constant,
        kind,
        NodeId((n + 1) as u32),
        NodeId((n + 2) as u32),
    );
    with_single(changed, SymKind::Bitcast, NodeId((n + 3) as u32))
}

/// A graph with the sign bit of the first operand, of `width` bits, turned.
pub open spec fn with_turned_sign(g: DagView<SymKind, SymPayload>, width: u32) -> DagView<
    SymKind,
    SymPayload,
> {
    with_masked(g, width, SymKind::Xor, 1u64 << ((width - 1) as u64))
}

/// A graph with the sign bit of the first operand, of `width` bits, cleared.
pub open spec fn with_magnitude(g: DagView<SymKind, SymPayload>, width: u32) -> DagView<
    SymKind,
    SymPayload,
> {
    with_masked(g, width, SymKind::And, ((1u64 << ((width - 1) as u64)) - 1) as u64)
}

fn masked<G: MutDag<Node = SymKind, Leaf = SymPayload>>(
    g: &mut G,
    width: u32,
    kind: SymKind,
    mask: u64,
) -> (id: NodeId)
    requires
        old(g).wf(),
        old(g).dag().nodes.len() + 5 <= u32::MAX,
    ensures
        final(g).wf(),
        id.0 == old(g).dag().nodes.len() + 4,
        final(g).dag() == with_masked(old(g).dag(), width, kind, mask),
{
    let input = add_leaf(g, SymKind::Symbol, SymPayload::SymbolId(0));
    let bits = add_single(g, SymKind::Bitcast, input);
    let constant = add_leaf(g, SymKind::Constant, SymPayload::Int(width, mask));
    let changed = add_pair(g, kind, bits, constant);
    add_single(g, SymKind::Bitcast, changed)
}

fn result_width(context: &Context, op: OpId) -> (r: Option<u64>)
    requires
        context.inv(),
        context@.vector_wf(op),
    ensures
        match r {
            Some(n) => context@.float_result_bits(op) == Some(n as nat),
            None => context@.float_result_bits(op) is None,
        },
{
    let result = context.results_of(op)[0];
    assert(context@.value_sound(context@.ir.op(op)->0.results[0]));
    match context.get_type_data(context.get_value(result).ty) {
        Type::Float(t) => Some(t.bit_width()),
        _ => None,
    }
}

impl NegOp {
    /// Adds what the operation computes: the sign bit turned.
    pub fn value_semantics<G: MutDag<Node = SymKind, Leaf = SymPayload>>(
        &self,
        context: &Context,
        g: &mut G,
    ) -> (r: Option<NodeId>)
        requires
            context.inv(),
            context@.vector_wf(self.0.id),
            context@.float_result_bits(self.0.id) is Some ==> context@.float_result_bits(
                self.0.id,
            )->0 <= 64,
            old(g).wf(),
            old(g).dag().nodes.len() + 5 <= u32::MAX,
        ensures
            final(g).wf(),
            match context@.float_result_bits(self.0.id) {
                Some(width) => {
                    &&& r == Some(NodeId((old(g).dag().nodes.len() + 4) as u32))
                    &&& final(g).dag() == with_turned_sign(old(g).dag(), width as u32)
                },
                None => r is None && final(g).dag() == old(g).dag(),
            },
    {
        let width: u64 = match result_width(context, self.0.id) {
            Some(width) => width,
            None => {
                return None;
            },
        };
        let sign: u64 = 1u64 << (width - 1);
        Some(masked(g, width as u32, SymKind::Xor, sign))
    }
}

impl AbsOp {
    /// Adds what the operation computes: the sign bit cleared.
    pub fn value_semantics<G: MutDag<Node = SymKind, Leaf = SymPayload>>(
        &self,
        context: &Context,
        g: &mut G,
    ) -> (r: Option<NodeId>)
        requires
            context.inv(),
            context@.vector_wf(self.0.id),
            context@.float_result_bits(self.0.id) is Some ==> context@.float_result_bits(
                self.0.id,
            )->0 <= 64,
            old(g).wf(),
            old(g).dag().nodes.len() + 5 <= u32::MAX,
        ensures
            final(g).wf(),
            match context@.float_result_bits(self.0.id) {
                Some(width) => {
                    &&& r == Some(NodeId((old(g).dag().nodes.len() + 4) as u32))
                    &&& final(g).dag() == with_magnitude(old(g).dag(), width as u32)
                },
                None => r is None && final(g).dag() == old(g).dag(),
            },
    {
        let width: u64 = match result_width(context, self.0.id) {
            Some(width) => width,
            None => {
                return None;
            },
        };
        let shift: u64 = width - 1;
        let sign: u64 = 1u64 << shift;
        assert(sign > 0) by (bit_vector)
            requires
                sign == 1u64 << shift,
                shift < 64,
        ;
        Some(masked(g, width as u32, SymKind::And, sign - 1))
    }
}

} // verus!

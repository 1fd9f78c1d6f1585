//! How copies and fills of memory are done: as a few plain accesses where the
//! target allows them, else as a call of the library's routine.
use vstd::prelude::*;
use crate::attributes::attr_view;
use crate::attributes::attr_views;
use crate::attributes::AttrView;
use crate::attributes::AttributeValue;
use crate::backend::instructions::PassError;
use crate::backend::instructions::PassErrorView;

verus! {

/// One access of an inline copy or fill.
#[derive(Debug, Clone, Copy, PartialEq, Eq, Structural)]
pub struct Chunk {
    pub offset: u64,
    pub bytes: u32,
}

/// Which access widths beside single bytes a target allows.
#[derive(Debug, Clone, Copy, PartialEq, Eq, Structural)]
pub struct Widths {
    pub two: bool,
    pub four: bool,
    pub eight: bool,
}

impl Widths {
    pub open spec fn bytes_only() -> Widths {
        Widths { two: false, four: false, eight: false }
    }

    /// With the width `n` allowed too.
    pub open spec fn with(self, n: nat) -> Widths {
        Widths {
            two: self.two || n == 2,
            four: self.four || n == 4,
            eight: self.eight || n == 8,
        }
    }

    /// Whether an access of `n` bytes is allowed.
    pub open spec fn allows(self, n: nat) -> bool {
        n == 1 || (n == 2 && self.two) || (n == 4 && self.four) || (n == 8 && self.eight)
    }

    /// The widest access that stays within `left` bytes.
    pub open spec fn widest(self, left: nat) -> nat {
        if self.eight && left >= 8 {
            8
        } else if self.four && left >= 4 {
            4
        } else if self.two && left >= 2 {
            2
        } else {
            1
        }
    }
}

/// The byte count an attribute names.
pub open spec fn unsigned_of(value: AttrView) -> Option<nat> {
    match value {
        AttrView::UInt(n) => Some(n),
        AttrView::Int(n) => if n >= 0 {
            Some(n as nat)
        } else {
            None
        },
        _ => None,
    }
}

fn unsigned(value: &AttributeValue) -> (r: Option<u64>)
    ensures
        match r {
            Some(n) => unsigned_of(value@) == Some(n as nat),
            None => unsigned_of(value@) is None,
        },
{
    match value {
        AttributeValue::UInt(n) => Some(*n),
        AttributeValue::Int(n) => if *n >= 0 {
            Some(*n as u64)
        } else {
            None
        },
        _ => None,
    }
}

/// Whether an entry names an access width a target can allow.
pub open spec fn names_width(item: AttrView) -> bool {
    match unsigned_of(item) {
        Some(n) => n == 1 || n == 2 || n == 4 || n == 8,
        None => false,
    }
}

/// Whether every entry names an access width a target can allow.
pub open spec fn name_widths(items: Seq<AttrView>) -> bool {
    forall|i: int| 0 <= i < items.len() ==> names_width(#[trigger] items[i])
}

/// The widths the first `n` of `items` allow.
pub open spec fn widths_in(items: Seq<AttrView>, n: int) -> Widths
    decreases n,
{
    if n <= 0 {
        Widths::bytes_only()
    } else {
        widths_in(items, n - 1).with(unsigned_of(items[n - 1])->0)
    }
}

/// Why what a target says of inline accesses is wrong.
pub open spec fn target_failure(limit: Option<AttrView>, widths: Option<AttrView>) -> Option<
    PassErrorView,
> {
    if limit is Some && unsigned_of(limit->0) is None {
        Some(
            PassErrorView::InvalidRuleSet(
                "memory_inline_bytes must be an unsigned byte count"@,
            ),
        )
    } else {
        match widths {
            None => None,
            Some(AttrView::Array(items)) => if name_widths(items) {
                None
            } else {
                Some(
                    PassErrorView::InvalidRuleSet(
                        "memory_scalar_bytes contains an unsupported access width"@,
                    ),
                )
            },
            Some(_) => Some(
                PassErrorView::InvalidRuleSet("memory_scalar_bytes must be an array"@),
            ),
        }
    }
}

/// How many bytes a target lets be handled inline.
pub open spec fn limit_of(limit: Option<AttrView>) -> nat {
    match limit {
        Some(value) => unsigned_of(value)->0,
        None => 64,
    }
}

/// The access widths a target allows. Without a list only bytes are: the native
/// register width does not prove that a wider access is legal.
pub open spec fn widths_of(widths: Option<AttrView>) -> Widths {
    match widths {
        Some(AttrView::Array(items)) => widths_in(items, items.len() as int),
        _ => Widths::bytes_only(),
    }
}

/// The accesses from `offset` up to `bytes`, each as wide as it can be, where
/// `room` of them are enough.
pub open spec fn chunks_from(offset: nat, bytes: nat, widths: Widths, room: nat) -> Option<
    Seq<Chunk>,
>
    decreases room,
{
    if offset >= bytes {
        Some(Seq::empty())
    } else if room == 0 {
        None
    } else {
        let width = widths.widest((bytes - offset) as nat);
        match chunks_from(offset + width, bytes, widths, (room - 1) as nat) {
            Some(rest) => Some(
                seq![Chunk { offset: offset as u64, bytes: width as u32 }] + rest,
            ),
            None => None,
        }
    }
}

/// The accesses that cover `bytes` bytes, where a target handles that many
/// inline in at most eight accesses.
pub open spec fn inline_plan(
    limit: Option<AttrView>,
    widths: Option<AttrView>,
    bytes: Option<u64>,
) -> Option<Seq<Chunk>> {
    match bytes {
        None => None,
        Some(n) => if n > limit_of(limit) {
            None
        } else {
            chunks_from(0, n as nat, widths_of(widths), 8)
        },
    }
}

fn allowed_widths(widths: Option<&AttributeValue>) -> (r: Result<Widths, PassError>)
    ensures
        match r {
            Ok(w) => target_failure(
                None,
                match widths {
                    Some(v) => Some(v@),
                    None => None,
                },
            ) is None && w == widths_of(
                match widths {
                    Some(v) => Some(v@),
                    None => None,
                },
            ),
            Err(e) => target_failure(
                None,
                match widths {
                    Some(v) => Some(v@),
                    None => None,
                },
            ) == Some(e@),
        },
{
    let mut allowed = Widths { two: false, four: false, eight: false };
    let items = match widths {
        None => {
            return Ok(allowed);
        },
        Some(AttributeValue::Array(items)) => items,
        Some(_) => {
            return Err(
                PassError::InvalidRuleSet("memory_scalar_bytes must be an array".to_owned()),
            );
        },
    };
    let ghost views = attr_views(items@);
    assert(views =~= attr_view(AttributeValue::Array(*items))->Array_0);
    let mut i: usize = 0;
    while i < items.len()
        invariant
            i <= items.len(),
            views == attr_views(items@),
            widths is Some,
            widths->0@ == AttrView::Array(views),
            allowed == widths_in(views, i as int),
            forall|k: int| 0 <= k < i ==> names_width(#[trigger] views[k]),
        decreases items.len() - i,
    {
        assert(views[i as int] == items@[i as int]@);
        match unsigned(&items[i]) {
            Some(1) => {},
            Some(2) => {
                allowed.two = true;
            },
            Some(4) => {
                allowed.four = true;
            },
            Some(8) => {
                allowed.eight = true;
            },
            _ => {
                assert(views.len() == items@.len());
                assert(!names_width(views[i as int]));
                proof {
                    assert(!name_widths(views));
                }
                return Err(
                    PassError::InvalidRuleSet(
                        "memory_scalar_bytes contains an unsupported access width".to_owned(),
                    ),
                );
            },
        }
        i += 1;
    }
    Ok(allowed)
}

/// The accesses a copy or a fill of `bytes` bytes is done with: an exact
/// partition, since no access may read or write beyond the range. `None` where
/// the size is not known, is more than the target handles inline, or would take
/// more accesses than are worth it. Declared widths are legal even at byte
/// alignment.
#[verifier::loop_isolation(false)]
pub fn inline_chunks(
    limit: Option<&AttributeValue>,
    widths: Option<&AttributeValue>,
    bytes: Option<u64>,
) -> (r: Result<Option<Vec<Chunk>>, PassError>)
    ensures
        ({
            let limit = match limit {
                Some(v) => Some(v@),
                None => None,
            };
            let widths = match widths {
                Some(v) => Some(v@),
                None => None,
            };
            match r {
                Ok(Some(chunks)) => target_failure(limit, widths) is None && inline_plan(
                    limit,
                    widths,
                    bytes,
                ) == Some(chunks@),
                Ok(None) => target_failure(limit, widths) is None && inline_plan(
                    limit,
                    widths,
                    bytes,
                ) is None,
                Err(e) => target_failure(limit, widths) == Some(e@),
            }
        }),
{
    let most: u64 = match limit {
        None => 64,
        Some(value) => match unsigned(value) {
            Some(n) => n,
            None => {
                return Err(
                    PassError::InvalidRuleSet(
                        "memory_inline_bytes must be an unsigned byte count".to_owned(),
                    ),
                );
            },
        },
    };
    let allowed = match allowed_widths(widths) {
        Ok(allowed) => allowed,
        Err(e) => {
            return Err(e);
        },
    };
    let bytes: u64 = match bytes {
        Some(n) => n,
        None => {
            return Ok(None);
        },
    };
    if bytes > most {
        return Ok(None);
    }
    let mut chunks: Vec<Chunk> = Vec::new();
    let mut offset: u64 = 0;
    let ghost plan = chunks_from(0, bytes as nat, allowed, 8);
    while offset < bytes
        invariant
            offset <= bytes,
            chunks.len() <= 8,
            plan == match chunks_from(
                offset as nat,
                bytes as nat,
                allowed,
                (8 - chunks.len()) as nat,
            ) {
                Some(rest) => Some(chunks@ + rest),
                None => None,
            },
        decreases bytes - offset,
    {
        if chunks.len() == 8 {
            return Ok(None);
        }
        let left: u64 = bytes - offset;
        let width: u32 = if allowed.eight && left >= 8 {
            8
        } else if allowed.four && left >= 4 {
            4
        } else if allowed.two && left >= 2 {
            2
        } else {
            1
        };
        let ghost before = chunks@;
        let ghost room = (8 - before.len()) as nat;
        chunks.push(Chunk { offset, bytes: width });
        proof {
            let rest = chunks_from(
                (offset + width) as nat,
                bytes as nat,
                allowed,
                (room - 1) as nat,
            );
            match rest {
                Some(more) => {
                    assert(before + (seq![Chunk { offset, bytes: width }] + more) =~= chunks@
                        + more);
                },
                None => {},
            }
        }
        offset += width as u64;
    }
    assert(chunks@ + Seq::<Chunk>::empty() =~= chunks@);
    Ok(Some(chunks))
}

/// Whether `chunks` cover exactly the bytes from `start` up to `end`, one after
/// the other, each of an allowed width.
pub open spec fn covers_exactly(chunks: Seq<Chunk>, start: nat, end: nat, widths: Widths) -> bool
    decreases chunks.len(),
{
    if chunks.len() == 0 {
        start == end
    } else {
        &&& chunks[0].offset == start
        &&& widths.allows(chunks[0].bytes as nat)
        &&& start + chunks[0].bytes <= end
        &&& covers_exactly(chunks.skip(1), start + chunks[0].bytes as nat, end, widths)
    }
}

/// The accesses of an inline copy or fill cover every byte of the range once and
/// no byte beyond it, in widths the target allows, and are eight at most.
pub proof fn inline_accesses_are_exact(
    limit: Option<AttrView>,
    widths: Option<AttrView>,
    bytes: u64,
)
    ensures
        match inline_plan(limit, widths, Some(bytes)) {
            Some(chunks) => covers_exactly(chunks, 0, bytes as nat, widths_of(widths))
                && chunks.len() <= 8,
            None => true,
        },
{
    chunks_are_exact(0, bytes as nat, widths_of(widths), 8);
}

proof fn chunks_are_exact(offset: nat, bytes: nat, widths: Widths, room: nat)
    requires
        offset <= bytes <= u64::MAX,
    ensures
        match chunks_from(offset, bytes, widths, room) {
            Some(chunks) => covers_exactly(chunks, offset, bytes, widths) && chunks.len() <= room,
            None => true,
        },
    decreases room,
{
    if offset < bytes && room > 0 {
        let width = widths.widest((bytes - offset) as nat);
        chunks_are_exact(offset + width, bytes, widths, (room - 1) as nat);
        match chunks_from(offset + width, bytes, widths, (room - 1) as nat) {
            Some(rest) => {
                let all = seq![Chunk { offset: offset as u64, bytes: width as u32 }] + rest;
                assert(all.skip(1) =~= rest);
            },
            None => {},
        }
    }
}

/// A number of `n` bytes that are all `byte`.
pub open spec fn repeated(byte: nat, n: nat) -> nat
    decreases n,
{
    if n == 0 {
        0
    } else {
        repeated(byte, (n - 1) as nat) * 256 + byte
    }
}

/// The number a byte is multiplied by to fill `bytes` bytes with it.
pub fn fill_pattern(bytes: u32) -> (r: u64)
    requires
        bytes <= 8,
    ensures
        r == repeated(1, bytes as nat),
{
    let mut r: u64 = 0;
    let mut i: u32 = 0;
    while i < bytes
        invariant
            i <= bytes <= 8,
            r == repeated(1, i as nat),
            repeated(1, i as nat) < pow256(i as nat),
        decreases bytes - i,
    {
        proof {
            small_powers(i as nat);
        }
        r = r * 256 + 1;
        i += 1;
    }
    r
}

/// The number of values `n` bytes can hold.
pub open spec fn pow256(n: nat) -> nat
    decreases n,
{
    if n == 0 {
        1
    } else {
        pow256((n - 1) as nat) * 256
    }
}

proof fn small_powers(n: nat)
    requires
        n < 8,
    ensures
        pow256(n) <= 0x0100_0000_0000_0000,
    decreases n,
{
    reveal_with_fuel(pow256, 9);
}

/// The product of a byte and the pattern holds the byte in each of its bytes.
pub proof fn fill_repeats_the_byte(byte: nat, n: nat, i: nat)
    requires
        byte < 256,
        i < n,
    ensures
        byte * repeated(1, n) == repeated(byte, n),
        (repeated(byte, n) / pow256(i)) % 256 == byte,
{
    product_repeats(byte, n);
    bytes_are_the_byte(byte, n, i);
}

proof fn product_repeats(byte: nat, n: nat)
    ensures
        byte * repeated(1, n) == repeated(byte, n),
    decreases n,
{
    if n > 0 {
        product_repeats(byte, (n - 1) as nat);
        let rest = repeated(1, (n - 1) as nat);
        assert(byte * (rest * 256 + 1) == (byte * rest) * 256 + byte) by (nonlinear_arith);
    } else {
        assert(byte * 0 == 0) by (nonlinear_arith);
    }
}

proof fn bytes_are_the_byte(byte: nat, n: nat, i: nat)
    requires
        byte < 256,
        i < n,
    ensures
        (repeated(byte, n) / pow256(i)) % 256 == byte,
    decreases n,
{
    let rest = repeated(byte, (n - 1) as nat);
    if i == 0 {
        assert(pow256(0) == 1);
        assert((rest * 256 + byte) / 1 == rest * 256 + byte);
    } else {
        bytes_are_the_byte(byte, (n - 1) as nat, (i - 1) as nat);
        let p = pow256((i - 1) as nat);
        powers_are_positive((i - 1) as nat);
        assert((rest * 256 + byte) / (p * 256) == rest / p) by (nonlinear_arith)
            requires
                p > 0,
                byte < 256,
        {
            vstd::arithmetic::div_mod::lemma_div_denominator((rest * 256 + byte) as int, 256, p as int);
            vstd::arithmetic::mul::lemma_mul_is_commutative(p as int, 256);
            vstd::arithmetic::div_mod::lemma_fundamental_div_mod_converse(
                (rest * 256 + byte) as int,
                256,
                rest as int,
                byte as int,
            );
        }
    }
}

proof fn powers_are_positive(n: nat)
    ensures
        pow256(n) > 0,
    decreases n,
{
    if n > 0 {
        powers_are_positive((n - 1) as nat);
    }
}

} // verus!

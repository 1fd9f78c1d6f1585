//! What a semantic graph computes: its value on given operands, and what the
//! graphs of comparisons and of sign changes give.
use vstd::arithmetic::power2::pow2;
use vstd::prelude::*;
use crate::attributes::Predicate;
use crate::dialects::builtin::arith::canonical_comparison;
use crate::dialects::builtin::arith::compared;
use crate::dialects::fp::bits::with_magnitude;
use crate::dialects::fp::bits::with_turned_sign;
use crate::dialects::ptr::address_comparison;
use crate::graph::DagView;
use crate::graph::NodeId;
use crate::sem::with_leaf;
use crate::sem::SymKind;
use crate::sem::SymPayload;

verus! {

/// The number `width` bits stand for in two's complement.
pub open spec fn signed_reading(bits: u64, width: nat) -> int {
    if width > 0 && bits as int >= pow2((width - 1) as nat) {
        bits as int - pow2(width)
    } else {
        bits as int
    }
}

/// The bits of a truth value.
pub open spec fn truth(b: bool) -> u64 {
    if b {
        1
    } else {
        0
    }
}

/// The bits a node of a graph gives where the operands of the operation have the
/// bits `operands`, each of `width` bits. An order reads them as signed or
/// unsigned numbers, as its name says; a cast of bits keeps them.
pub open spec fn meaning(
    g: DagView<SymKind, SymPayload>,
    operands: Seq<u64>,
    width: nat,
    node: int,
) -> u64
    decreases node,
{
    let first = g.edges[node][0].0 as int;
    let second = g.edges[node][1].0 as int;
    let a = if first < node {
        meaning(g, operands, width, first)
    } else {
        0
    };
    let b = if second < node {
        meaning(g, operands, width, second)
    } else {
        0
    };
    if node < 0 {
        0
    } else {
        match g.nodes[node] {
            SymKind::Symbol => match g.leaves[node] {
                Some(SymPayload::SymbolId(position)) => operands[position as int],
                _ => 0,
            },
            SymKind::Constant => match g.leaves[node] {
                Some(SymPayload::Int(_, value)) => value,
                _ => 0,
            },
            SymKind::Eq => truth(a == b),
            SymKind::Ne => truth(a != b),
            SymKind::Lt => truth(signed_reading(a, width) < signed_reading(b, width)),
            SymKind::Ge => truth(signed_reading(a, width) >= signed_reading(b, width)),
            SymKind::ULt => truth(a < b),
            SymKind::UGe => truth(a >= b),
            SymKind::Bitcast => a,
            SymKind::And => a & b,
            SymKind::Xor => a ^ b,
        }
    }
}

/// Whether `after` has every node of `before` as it was.
pub open spec fn extends(
    before: DagView<SymKind, SymPayload>,
    after: DagView<SymKind, SymPayload>,
) -> bool {
    forall|i: int|
        0 <= i < before.nodes.len() ==> {
            &&& #[trigger] after.nodes[i] == before.nodes[i]
            &&& after.edges[i] == before.edges[i]
            &&& after.leaves[i] == before.leaves[i]
        }
}

/// Whether the parts of a graph have one entry for each node.
pub open spec fn whole(g: DagView<SymKind, SymPayload>) -> bool {
    g.edges.len() == g.nodes.len() && g.leaves.len() == g.nodes.len()
}

/// An integer comparison adds a node that gives one exactly where its predicate
/// holds of the first operand and the second, in this order, read as signed
/// numbers by a signed predicate and as unsigned ones by an unsigned one. Every
/// predicate has such a node, and the nodes there were before stay.
pub proof fn comparisons_mean_their_predicate(
    predicate: Predicate,
    before: DagView<SymKind, SymPayload>,
    after: DagView<SymKind, SymPayload>,
    node: Option<NodeId>,
    a: u64,
    b: u64,
    width: nat,
)
    requires
        whole(before),
        before.nodes.len() + 3 <= u32::MAX,
        compared(before, canonical_comparison(predicate, false), after, node),
    ensures
        extends(before, after),
        node is Some,
        (node->0).0 < after.nodes.len(),
        meaning(after, seq![a, b], width, (node->0).0 as int) == truth(
            match predicate {
                Predicate::Eq => a == b,
                Predicate::Ne => a != b,
                Predicate::Slt => signed_reading(a, width) < signed_reading(b, width),
                Predicate::Sle => signed_reading(a, width) <= signed_reading(b, width),
                Predicate::Sgt => signed_reading(a, width) > signed_reading(b, width),
                Predicate::Sge => signed_reading(a, width) >= signed_reading(b, width),
                Predicate::Ult => a < b,
                Predicate::Ule => a <= b,
                Predicate::Ugt => a > b,
                Predicate::Uge => a >= b,
            },
        ),
{
    reveal_with_fuel(meaning, 3);
    assert(seq![a, b][0] == a && seq![a, b][1] == b);
}

/// A comparison of addresses adds a node that gives one exactly where the
/// comparison its name spells holds of the first address and the second, read
/// as unsigned numbers. The names of the six such comparisons, and no others,
/// add a node.
pub proof fn address_comparisons_mean_their_name(
    name: Seq<char>,
    before: DagView<SymKind, SymPayload>,
    after: DagView<SymKind, SymPayload>,
    node: Option<NodeId>,
    a: u64,
    b: u64,
    width: nat,
)
    requires
        whole(before),
        before.nodes.len() + 3 <= u32::MAX,
        compared(before, address_comparison(name), after, node),
    ensures
        extends(before, after),
        node is Some <==> name == "eq"@ || name == "ne"@ || name == "ult"@ || name == "ule"@
            || name == "ugt"@ || name == "uge"@,
        node is Some ==> {
            let given = meaning(after, seq![a, b], width, (node->0).0 as int);
            &&& (node->0).0 < after.nodes.len()
            &&& name == "eq"@ ==> given == truth(a == b)
            &&& name == "ne"@ ==> given == truth(a != b)
            &&& name == "ult"@ ==> given == truth(a < b)
            &&& name == "ule"@ ==> given == truth(a <= b)
            &&& name == "ugt"@ ==> given == truth(a > b)
            &&& name == "uge"@ ==> given == truth(a >= b)
        },
        node is None ==> after == before,
{
    reveal_strlit("eq");
    reveal_strlit("ne");
    reveal_strlit("ult");
    reveal_strlit("ule");
    reveal_strlit("ugt");
    reveal_strlit("uge");
    assert("eq"@ != "ne"@) by {
        assert("eq"@[0] != "ne"@[0]);
    }
    assert("ult"@ != "ule"@) by {
        assert("ult"@[2] != "ule"@[2]);
    }
    assert("ult"@ != "ugt"@) by {
        assert("ult"@[1] != "ugt"@[1]);
    }
    assert("ult"@ != "uge"@) by {
        assert("ult"@[1] != "uge"@[1]);
    }
    assert("ule"@ != "ugt"@) by {
        assert("ule"@[1] != "ugt"@[1]);
    }
    assert("ule"@ != "uge"@) by {
        assert("ule"@[1] != "uge"@[1]);
    }
    assert("ugt"@ != "uge"@) by {
        assert("ugt"@[2] != "uge"@[2]);
    }
    assert("eq"@.len() == 2 && "ne"@.len() == 2 && "ult"@.len() == 3 && "ule"@.len() == 3
        && "ugt"@.len() == 3 && "uge"@.len() == 3);
    reveal_with_fuel(meaning, 3);
    assert(seq![a, b][0] == a && seq![a, b][1] == b);
}

/// A constant leaf gives its value, whatever the operands are, and a symbol
/// gives the operand at its position.
pub proof fn leaves_give_what_they_carry(
    g: DagView<SymKind, SymPayload>,
    operands: Seq<u64>,
    width: nat,
    bits: u32,
    value: u64,
    position: u32,
)
    requires
        whole(g),
    ensures
        meaning(
            with_leaf(g, SymKind::Constant, SymPayload::Int(bits, value)),
            operands,
            width,
            g.nodes.len() as int,
        ) == value,
        meaning(
            with_leaf(g, SymKind::Symbol, SymPayload::SymbolId(position)),
            operands,
            width,
            g.nodes.len() as int,
        ) == operands[position as int],
        extends(g, with_leaf(g, SymKind::Constant, SymPayload::Int(bits, value))),
        extends(g, with_leaf(g, SymKind::Symbol, SymPayload::SymbolId(position))),
{
}

/// Negating a floating-point number turns its sign bit and keeps every other
/// bit.
pub proof fn negation_turns_the_sign_bit(
    g: DagView<SymKind, SymPayload>,
    width: u32,
    bits: u64,
    k: u64,
)
    requires
        whole(g),
        g.nodes.len() + 5 <= u32::MAX,
        0 < width <= 64,
        k < width,
    ensures
        extends(g, with_turned_sign(g, width)),
        ({
            let given = meaning(
                with_turned_sign(g, width),
                seq![bits],
                width as nat,
                (g.nodes.len() + 4) as int,
            );
            (given >> k) & 1 == if k == width - 1 {
                1 - ((bits >> k) & 1)
            } else {
                ((bits >> k) & 1) as int
            }
        }),
{
    let n = g.nodes.len() as int;
    let after = with_turned_sign(g, width);
    let shift = (width - 1) as u64;
    let mask = 1u64 << shift;
    assert(seq![bits][0] == bits);
    reveal_with_fuel(meaning, 5);
    assert(meaning(after, seq![bits], width as nat, n) == bits);
    assert(meaning(after, seq![bits], width as nat, n + 1) == bits);
    assert(meaning(after, seq![bits], width as nat, n + 2) == mask);
    assert(meaning(after, seq![bits], width as nat, n + 3) == bits ^ mask);
    assert(((bits ^ mask) >> k) & 1 == if k == shift {
        1 - ((bits >> k) & 1)
    } else {
        ((bits >> k) & 1) as int
    }) by (bit_vector)
        requires
            mask == 1u64 << shift,
            shift < 64,
            k < 64,
    ;
}

/// The magnitude of a floating-point number has its sign bit cleared and every
/// other bit as it was.
pub proof fn magnitude_clears_the_sign_bit(
    g: DagView<SymKind, SymPayload>,
    width: u32,
    bits: u64,
    k: u64,
)
    requires
        whole(g),
        g.nodes.len() + 5 <= u32::MAX,
        0 < width <= 64,
        k < width,
    ensures
        extends(g, with_magnitude(g, width)),
        ({
            let given = meaning(
                with_magnitude(g, width),
                seq![bits],
                width as nat,
                (g.nodes.len() + 4) as int,
            );
            (given >> k) & 1 == if k == width - 1 {
                0
            } else {
                (bits >> k) & 1
            }
        }),
{
    let n = g.nodes.len() as int;
    let after = with_magnitude(g, width);
    let shift = (width - 1) as u64;
    let sign = 1u64 << shift;
    let mask = (sign - 1) as u64;
    assert(sign > 0) by (bit_vector)
        requires
            sign == 1u64 << shift,
            shift < 64,
    ;
    assert(seq![bits][0] == bits);
    reveal_with_fuel(meaning, 5);
    assert(meaning(after, seq![bits], width as nat, n) == bits);
    assert(meaning(after, seq![bits], width as nat, n + 1) == bits);
    assert(meaning(after, seq![bits], width as nat, n + 2) == mask);
    assert(meaning(after, seq![bits], width as nat, n + 3) == bits & mask);
    assert(((bits & mask) >> k) & 1 == if k == shift {
        0
    } else {
        (bits >> k) & 1
    }) by (bit_vector)
        requires
            mask == (1u64 << shift) - 1,
            shift < 64,
            k <= shift,
    ;
}

} // verus!

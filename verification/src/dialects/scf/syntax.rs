//! The text of counted loops.
use vstd::prelude::*;
use vstd::string::*;
use crate::binding::syntax::bindings_at;
use crate::binding::syntax::pairs_of;
use crate::binding::syntax::parse_port_bindings;
use crate::binding::syntax::PortPair;
use crate::builder::BuilderView;
use crate::builder::OpBuilder;
use crate::error::ErrorView;
use crate::ids::RegionId;
use crate::ids::TypeId;
use crate::ids::ValueId;
use crate::parse::reads;
use crate::parse::text::region_at;
use crate::parse::text::token_at;
use crate::parse::text::value_ref;
use crate::parse::text::Parser;
use crate::parse::ParseResult;
use crate::parse::Parsed;
use crate::parse::Span;

verus! {

/// A counted loop as it is written: its counter and bounds, what it carries, and
/// the stretch of text that holds its body.
pub struct ForSyntax {
    pub counter: String,
    pub lower: String,
    pub upper: String,
    pub step: String,
    pub carried: Vec<PortPair>,
    pub body: Span,
}

/// What a written counted loop says.
pub ghost struct ForTree {
    pub counter: Seq<char>,
    pub lower: Seq<char>,
    pub upper: Seq<char>,
    pub step: Seq<char>,
    pub carried: Seq<(Seq<char>, Seq<char>)>,
    pub body: (int, int),
}

impl View for ForSyntax {
    type V = ForTree;

    open spec fn view(&self) -> ForTree {
        ForTree {
            counter: self.counter@,
            lower: self.lower@,
            upper: self.upper@,
            step: self.step@,
            carried: pairs_of(self.carried@),
            body: (self.body.start as int, self.body.end as int),
        }
    }
}

/// The name behind `token`, which has to come next.
pub open spec fn keyed_ref(text: Seq<char>, pos: int, token: Seq<char>) -> Parsed<Seq<char>> {
    match token_at(text, pos, token) {
        None => Err((pos, ErrorView::ExpectedToken(token))),
        Some(p) => value_ref(text, p),
    }
}

/// The counted loop that has to come next, behind its mnemonic:
/// `%i = %lb to %ub step %s (%port = %init, ..) { .. }`.
pub open spec fn for_at(text: Seq<char>, pos: int) -> Parsed<ForTree> {
    match value_ref(text, pos) {
        Err(e) => Err(e),
        Ok((counter, p)) => match keyed_ref(text, p, "="@) {
            Err(e) => Err(e),
            Ok((lower, p)) => match keyed_ref(text, p, "to"@) {
                Err(e) => Err(e),
                Ok((upper, p)) => match keyed_ref(text, p, "step"@) {
                    Err(e) => Err(e),
                    Ok((step, p)) => match bindings_at(text, p) {
                        Err(e) => Err(e),
                        Ok((carried, p)) => match region_at(text, p) {
                            Err(e) => Err(e),
                            Ok((body, p)) => Ok(
                                (ForTree { counter, lower, upper, step, carried, body }, p),
                            ),
                        },
                    },
                },
            },
        },
    }
}

fn parse_keyed_ref(parser: &mut Parser, token: &'static str) -> (r: ParseResult<String>)
    requires
        old(parser)@.wf(),
    ensures
        reads(
            r,
            old(parser)@,
            final(parser)@,
            keyed_ref(old(parser)@.text, old(parser)@.pos, token@),
            |s: String| s@,
        ),
        final(parser)@.wf(),
{
    if let Err(e) = parser.expect(token) {
        return Err(e);
    }
    parser.expect_value_ref()
}

impl ForSyntax {
    /// Reads the counted loop that has to come next, behind its mnemonic.
    pub fn parse(parser: &mut Parser) -> (r: ParseResult<ForSyntax>)
        requires
            old(parser)@.wf(),
        ensures
            reads(
                r,
                old(parser)@,
                final(parser)@,
                for_at(old(parser)@.text, old(parser)@.pos),
                |f: ForSyntax| f@,
            ),
            final(parser)@.wf(),
    {
        let counter = match parser.expect_value_ref() {
            Ok(counter) => counter,
            Err(e) => {
                return Err(e);
            },
        };
        let lower = match parse_keyed_ref(parser, "=") {
            Ok(lower) => lower,
            Err(e) => {
                return Err(e);
            },
        };
        let upper = match parse_keyed_ref(parser, "to") {
            Ok(upper) => upper,
            Err(e) => {
                return Err(e);
            },
        };
        let step = match parse_keyed_ref(parser, "step") {
            Ok(step) => step,
            Err(e) => {
                return Err(e);
            },
        };
        let carried = match parse_port_bindings(parser) {
            Ok(carried) => carried,
            Err(e) => {
                return Err(e);
            },
        };
        match parser.parse_region() {
            Ok(body) => Ok(ForSyntax { counter, lower, upper, step, carried, body }),
            Err(e) => Err(e),
        }
    }
}

/// What the builder of a counted loop carries: its bounds around what it starts
/// from, its body, and a result for the counter and for each value carried.
pub open spec fn for_view(
    name: Seq<char>,
    bounds: (ValueId, ValueId, ValueId),
    inits: Seq<ValueId>,
    body: RegionId,
    types: Seq<TypeId>,
) -> BuilderView {
    with_results(
        BuilderView::fresh("scf"@, name).with_group(seq![bounds.0]).with_group(inits).with_group(
            seq![bounds.1],
        ).with_group(seq![bounds.2]).with_segments().with_region(body),
        types,
        types.len() as int,
    )
}

/// With a result of each of the first `n` of `types`.
pub open spec fn with_results(b: BuilderView, types: Seq<TypeId>, n: int) -> BuilderView
    decreases n,
{
    if n <= 0 {
        b
    } else {
        with_results(b, types, n - 1).with_result(types[n - 1])
    }
}

/// The builder of a counted loop spelled `scf.name` from `lower` up to `upper` by
/// `step`, over its body. `types` are the types of the counter and of what is
/// carried.
pub fn counted_loop(
    name: &'static str,
    lower: ValueId,
    upper: ValueId,
    step: ValueId,
    inits: Vec<ValueId>,
    body: RegionId,
    types: &Vec<TypeId>,
) -> (r: OpBuilder)
    ensures
        r@ == for_view(name@, (lower, upper, step), inits@, body, types@),
{
    let mut r = OpBuilder::new("scf", name).operand(lower).operands(inits).operand(upper).operand(
        step,
    ).segments().region(body);
    let ghost start = r@;
    let mut i: usize = 0;
    while i < types.len()
        invariant
            i <= types.len(),
            r@ == with_results(start, types@, i as int),
        decreases types.len() - i,
    {
        r = r.result_type(types[i]);
        i += 1;
    }
    r
}

} // verus!

//! A rounded evaluation as it is written.
use vstd::prelude::*;
use crate::binding::ids_of;
use crate::binding::port_bindings;
use crate::binding::port_ids;
use crate::binding::print_port_bindings;
use crate::binding::syntax::bindings_at;
use crate::binding::syntax::pairs_of;
use crate::binding::syntax::parse_port_bindings;
use crate::binding::syntax::PortPair;
use crate::context::Context;
use crate::context::ContextView;
use crate::dependency::print_result_prefix;
use crate::dependency::result_prefix;
use crate::dialects::fp::round::parse_types;
use crate::dialects::fp::round::print_types;
use crate::dialects::fp::round::types_text;
use crate::dialects::fp::round::types_written;
use crate::dialects::fp::round::RoundOp;
use crate::dialects::print::types_of;
use crate::ids::OpId;
use crate::ir::copy_list;
use crate::ir_formatter::FormatView;
use crate::ir_formatter::IRFormatter;
use crate::parse::reads;
use crate::parse::text::expected;
use crate::parse::text::Parser;
use crate::parse::types::trees_of;
use crate::parse::types::TypeSyntax;
use crate::parse::types::TypeTree;
use crate::parse::ParseResult;
use crate::parse::Parsed;

verus! {

/// What is written of a rounded evaluation ahead of its contract: what it produces,
/// its name, and how its captures enter the reference.
pub open spec fn round_head(f: FormatView, context: ContextView, op: OpId) -> FormatView {
    let o = context.ir.op(op)->0;
    let ports = ids_of(context.region_ports(o.regions[0]));
    let named = (if o.results.len() == 0 {
        f
    } else {
        f.written(result_prefix(context, op))
    }).written("fp.round"@);
    if ports.len() == 0 {
        named
    } else {
        named.written(port_bindings(ports, o.operands))
    }
}

impl RoundOp {
    /// Prints the evaluation, its contract printed as `contract` and its reference as
    /// `reference`.
    pub fn custom_print(
        &self,
        context: &Context,
        fmt: &mut IRFormatter,
        contract: &str,
        reference: &str,
    )
        requires
            context.inv(),
            context@.readable(self.0.id),
            context@.ir.op(self.0.id)->0.regions.len() > 0,
            context@.ir.op(self.0.id)->0.results.len() > 0,
            context@.values_typed(context@.ir.op(self.0.id)->0.results),
        ensures
            final(fmt)@ == round_head(old(fmt)@, context@, self.0.id).written(
                " {contract = "@,
            ).written(contract@).written("} : "@).written(
                types_text(
                    context@,
                    context@.types_of(context@.ir.op(self.0.id)->0.results),
                ),
            ).written(reference@),
    {
        let ports = port_ids(context, self.reference_region(context));
        let captures = copy_list(context.operands_of(self.0.id));
        let results = copy_list(context.results_of(self.0.id));
        print_result_prefix(fmt, context, &self.0);
        fmt.write("fp.round");
        print_port_bindings(fmt, ports.as_slice(), captures.as_slice());
        fmt.write(" {contract = ");
        fmt.write(contract);
        fmt.write("} : ");
        let types = types_of(context, &results);
        print_types(fmt, context, &types);
        fmt.write(reference);
    }
}

/// How the captures of a rounded evaluation enter its reference, up to where its
/// contract begins.
pub open spec fn round_head_at(
    text: Seq<char>,
    pos: int,
) -> Parsed<Seq<(Seq<char>, Seq<char>)>> {
    match bindings_at(text, pos) {
        Err(e) => Err(e),
        Ok((pairs, p)) => match expected(text, p, "{"@) {
            Err(e) => Err(e),
            Ok((_, p)) => match expected(text, p, "contract"@) {
                Err(e) => Err(e),
                Ok((_, p)) => match expected(text, p, "="@) {
                    Err(e) => Err(e),
                    Ok((_, p)) => Ok((pairs, p)),
                },
            },
        },
    }
}

/// The types a rounded evaluation gives, from where its contract ends.
pub open spec fn round_tail_at(text: Seq<char>, pos: int) -> Parsed<Seq<TypeTree>> {
    match expected(text, pos, "}"@) {
        Err(e) => Err(e),
        Ok((_, p)) => match expected(text, p, ":"@) {
            Err(e) => Err(e),
            Ok((_, p)) => types_written(text, p),
        },
    }
}

/// Reads how the captures of a rounded evaluation enter its reference, up to where
/// its contract begins.
pub fn parse_round_head(parser: &mut Parser) -> (r: ParseResult<Vec<PortPair>>)
    requires
        old(parser)@.wf(),
    ensures
        reads(
            r,
            old(parser)@,
            final(parser)@,
            round_head_at(old(parser)@.text, old(parser)@.pos),
            |list: Vec<PortPair>| pairs_of(list@),
        ),
        final(parser)@.wf(),
{
    let pairs = match parse_port_bindings(parser) {
        Ok(pairs) => pairs,
        Err(e) => {
            return Err(e);
        },
    };
    if let Err(e) = parser.expect("{") {
        return Err(e);
    }
    if let Err(e) = parser.expect("contract") {
        return Err(e);
    }
    if let Err(e) = parser.expect("=") {
        return Err(e);
    }
    Ok(pairs)
}

/// Reads the types a rounded evaluation gives, from where its contract ends.
pub fn parse_round_tail(parser: &mut Parser) -> (r: ParseResult<Vec<TypeSyntax>>)
    requires
        old(parser)@.wf(),
    ensures
        reads(
            r,
            old(parser)@,
            final(parser)@,
            round_tail_at(old(parser)@.text, old(parser)@.pos),
            |list: Vec<TypeSyntax>| trees_of(list@),
        ),
        final(parser)@.wf(),
{
    if let Err(e) = parser.expect("}") {
        return Err(e);
    }
    if let Err(e) = parser.expect(":") {
        return Err(e);
    }
    parse_types(parser)
}

} // verus!

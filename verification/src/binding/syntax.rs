//! The text of operations that hand values into regions: the clause that binds
//! ports to what enters them, and the loops and choices written with it.
use vstd::prelude::*;
use vstd::string::*;
use crate::binding::ids_of;
use crate::binding::order_theta_results;
use crate::binding::port_bindings;
use crate::binding::port_ids;
use crate::binding::print_port_bindings;
use crate::binding::slice;
use crate::binding::sliced;
use crate::context::Context;
use crate::context::ContextView;
use crate::context::OpHandle;
use crate::dependency::print_result_prefix;
use crate::dependency::result_prefix;
use crate::dependency::value_list;
use crate::dependency::value_list_text;
use crate::dependency::value_name;
use crate::dependency::value_text;
use crate::error::Error;
use crate::error::ErrorView;
use crate::ids::OpId;
use crate::ids::RegionId;
use crate::ids::TypeId;
use crate::ids::ValueId;
use crate::interfaces::Binding;
use crate::interfaces::IndexRange;
use crate::ir::Value;
use crate::ir_formatter::FormatView;
use crate::ir_formatter::IRFormatter;
use crate::lists::MAX_IDS;
use crate::parse::lists::refs_at;
use crate::parse::reads;
use crate::parse::scope::bound_in;
use crate::parse::scope::spelled;
use crate::parse::scope::Scope;
use crate::parse::text::expected;
use crate::parse::text::peeked;
use crate::parse::text::region_at;
use crate::parse::text::token_at;
use crate::parse::text::value_ref;
use crate::parse::text::Parser;
use crate::parse::types::before;
use crate::parse::types::before_nothing;
use crate::parse::types::before_twice;
use crate::parse::ParseResult;
use crate::parse::Parsed;
use crate::parse::Span;
use crate::text::cat3;

verus! {

/// A port and what enters it, as `%port = %init` names them.
pub struct PortPair {
    pub port: String,
    pub init: String,
}

impl View for PortPair {
    type V = (Seq<char>, Seq<char>);

    open spec fn view(&self) -> (Seq<char>, Seq<char>) {
        (self.port@, self.init@)
    }
}

/// What each of `list` names.
pub open spec fn pairs_of(list: Seq<PortPair>) -> Seq<(Seq<char>, Seq<char>)> {
    list.map_values(|p: PortPair| p@)
}

/// `%port = %init`, which has to come next.
pub open spec fn pair_at(text: Seq<char>, pos: int) -> Parsed<(Seq<char>, Seq<char>)> {
    match value_ref(text, pos) {
        Err(e) => Err(e),
        Ok((port, p)) => match token_at(text, p, "="@) {
            None => Err((p, ErrorView::ExpectedToken("="@))),
            Some(p) => match value_ref(text, p) {
                Err(e) => Err(e),
                Ok((init, p)) => Ok(((port, init), p)),
            },
        },
    }
}

/// The pairs that come next, separated by commas, a comma behind the last of
/// them allowed.
pub open spec fn pairs_at(text: Seq<char>, pos: int) -> Parsed<Seq<(Seq<char>, Seq<char>)>>
    decreases text.len() - pos,
{
    if peeked(text, pos) != Some('%') {
        Ok((Seq::empty(), pos))
    } else {
        match pair_at(text, pos) {
            Err(e) => Err(e),
            Ok((pair, p)) => match token_at(text, p, ","@) {
                None => Ok((seq![pair], p)),
                Some(p) => if !(pos < p <= text.len()) {
                    Err((p, ErrorView::ExpectedValueRef))
                } else {
                    before(seq![pair], pairs_at(text, p))
                },
            },
        }
    }
}

/// The pairs of `(%port = %init, ..)`, none where the clause does not come next.
pub open spec fn bindings_at(text: Seq<char>, pos: int) -> Parsed<Seq<(Seq<char>, Seq<char>)>> {
    match token_at(text, pos, "("@) {
        None => Ok((Seq::empty(), pos)),
        Some(p) => match pairs_at(text, p) {
            Err(e) => Err(e),
            Ok((pairs, p)) => match token_at(text, p, ")"@) {
                None => Err((p, ErrorView::ExpectedToken(")"@))),
                Some(p) => Ok((pairs, p)),
            },
        },
    }
}

/// A loop as it is written: its ports and what enters them, and the stretch of
/// text that holds its body.
pub struct ThetaSyntax {
    pub ports: Vec<PortPair>,
    pub body: Span,
}

/// What a written loop says.
pub ghost struct ThetaTree {
    pub ports: Seq<(Seq<char>, Seq<char>)>,
    pub body: (int, int),
}

impl View for ThetaSyntax {
    type V = ThetaTree;

    open spec fn view(&self) -> ThetaTree {
        ThetaTree {
            ports: pairs_of(self.ports@),
            body: (self.body.start as int, self.body.end as int),
        }
    }
}

/// The loop that has to come next, behind its mnemonic.
pub open spec fn theta_at(text: Seq<char>, pos: int) -> Parsed<ThetaTree> {
    match bindings_at(text, pos) {
        Err(e) => Err(e),
        Ok((ports, p)) => match region_at(text, p) {
            Err(e) => Err(e),
            Ok((body, p)) => Ok((ThetaTree { ports, body }, p)),
        },
    }
}

/// One arm of a choice as it is written: the names of its ports and the stretch
/// of text that holds its body.
pub struct ArmSyntax {
    pub ports: Vec<String>,
    pub body: Span,
}

/// What a written arm says.
pub ghost struct ArmTree {
    pub ports: Seq<Seq<char>>,
    pub body: (int, int),
}

impl View for ArmSyntax {
    type V = ArmTree;

    open spec fn view(&self) -> ArmTree {
        ArmTree {
            ports: spelled(self.ports@),
            body: (self.body.start as int, self.body.end as int),
        }
    }
}

/// What each of `list` says.
pub open spec fn arms_of(list: Seq<ArmSyntax>) -> Seq<ArmTree> {
    list.map_values(|a: ArmSyntax| a@)
}

/// A choice as it is written: what decides, what is forwarded, and its arms.
pub struct GammaSyntax {
    pub predicate: String,
    pub inputs: Vec<String>,
    pub arms: Vec<ArmSyntax>,
}

/// What a written choice says.
pub ghost struct GammaTree {
    pub predicate: Seq<char>,
    pub inputs: Seq<Seq<char>>,
    pub arms: Seq<ArmTree>,
}

impl View for GammaSyntax {
    type V = GammaTree;

    open spec fn view(&self) -> GammaTree {
        GammaTree {
            predicate: self.predicate@,
            inputs: spelled(self.inputs@),
            arms: arms_of(self.arms@),
        }
    }
}

/// The names of the ports from the `k`th up to the last of `count`, which have to
/// come next, separated by commas.
pub open spec fn ports_at(text: Seq<char>, pos: int, k: nat, count: nat) -> Parsed<Seq<Seq<char>>>
    decreases count - k,
{
    if k >= count {
        Ok((Seq::empty(), pos))
    } else {
        match if k > 0 {
            expected(text, pos, ","@)
        } else {
            Ok(((), pos))
        } {
            Err(e) => Err(e),
            Ok((_, p)) => match value_ref(text, p) {
                Err(e) => Err(e),
                Ok((name, p)) => before(seq![name], ports_at(text, p, k + 1, count)),
            },
        }
    }
}

/// The arms that come next, each with a port for each of `count` inputs.
pub open spec fn arms_at(text: Seq<char>, pos: int, count: nat) -> Parsed<Seq<ArmTree>>
    decreases text.len() - pos, 1nat,
{
    match token_at(text, pos, "("@) {
        Some(p) => match ports_at(text, p, 0, count) {
            Err(e) => Err(e),
            Ok((ports, p)) => match token_at(text, p, ")"@) {
                None => Err((p, ErrorView::ExpectedToken(")"@))),
                Some(p) => if !(pos < p <= text.len()) {
                    Err((p, ErrorView::ExpectedToken("{"@)))
                } else {
                    arm_at(text, p, ports, count)
                },
            },
        },
        None => if peeked(text, pos) != Some('{') {
            Ok((Seq::empty(), pos))
        } else {
            arm_at(text, pos, Seq::empty(), count)
        },
    }
}

/// The arm whose ports were read, whose body has to come next, and the arms
/// behind it.
pub open spec fn arm_at(text: Seq<char>, pos: int, ports: Seq<Seq<char>>, count: nat) -> Parsed<
    Seq<ArmTree>,
>
    decreases text.len() - pos, 0nat,
{
    match region_at(text, pos) {
        Err(e) => Err(e),
        Ok((body, p)) => if !(pos < p <= text.len()) {
            Err((p, ErrorView::ExpectedToken("{"@)))
        } else {
            before(seq![ArmTree { ports, body }], arms_at(text, p, count))
        },
    }
}

/// The inputs of `args(%a, %b)`, none where the clause does not come next.
pub open spec fn inputs_at(text: Seq<char>, pos: int) -> Parsed<Seq<Seq<char>>> {
    match token_at(text, pos, "args"@) {
        None => Ok((Seq::empty(), pos)),
        Some(p) => match token_at(text, p, "("@) {
            None => Err((p, ErrorView::ExpectedToken("("@))),
            Some(p) => match refs_at(text, p) {
                Err(e) => Err(e),
                Ok((inputs, p)) => match token_at(text, p, ")"@) {
                    None => Err((p, ErrorView::ExpectedToken(")"@))),
                    Some(p) => Ok((inputs, p)),
                },
            },
        },
    }
}

/// The choice that has to come next, behind its mnemonic.
pub open spec fn gamma_at(text: Seq<char>, pos: int) -> Parsed<GammaTree> {
    match value_ref(text, pos) {
        Err(e) => Err(e),
        Ok((predicate, p)) => match inputs_at(text, p) {
            Err(e) => Err(e),
            Ok((inputs, p)) => match arms_at(text, p, inputs.len()) {
                Err(e) => Err(e),
                Ok((arms, p)) => if arms.len() == 0 {
                    Err((p, ErrorView::ExpectedToken("{"@)))
                } else {
                    Ok((GammaTree { predicate, inputs, arms }, p))
                },
            },
        },
    }
}

fn parse_pair(parser: &mut Parser) -> (r: ParseResult<PortPair>)
    requires
        old(parser)@.wf(),
    ensures
        reads(
            r,
            old(parser)@,
            final(parser)@,
            pair_at(old(parser)@.text, old(parser)@.pos),
            |p: PortPair| p@,
        ),
        final(parser)@.wf(),
        final(parser)@.pos >= old(parser)@.pos,
        r is Ok ==> final(parser)@.pos > old(parser)@.pos,
{
    let port = match parser.expect_value_ref() {
        Ok(port) => port,
        Err(e) => {
            return Err(e);
        },
    };
    if let Err(e) = parser.expect("=") {
        return Err(e);
    }
    match parser.expect_value_ref() {
        Ok(init) => Ok(PortPair { port, init }),
        Err(e) => Err(e),
    }
}

/// Reads an optional `(%port = %init, ..)` clause.
pub fn parse_port_bindings(parser: &mut Parser) -> (r: ParseResult<Vec<PortPair>>)
    requires
        old(parser)@.wf(),
    ensures
        reads(
            r,
            old(parser)@,
            final(parser)@,
            bindings_at(old(parser)@.text, old(parser)@.pos),
            |list: Vec<PortPair>| pairs_of(list@),
        ),
        final(parser)@.wf(),
        final(parser)@.pos >= old(parser)@.pos,
{
    proof {
        reveal_strlit(",");
    }
    let mut list: Vec<PortPair> = Vec::new();
    assert(pairs_of(list@) =~= Seq::<(Seq<char>, Seq<char>)>::empty());
    if !parser.parse_token("(") {
        return Ok(list);
    }
    let ghost start = parser@;
    let mut more = true;
    proof {
        before_nothing(pairs_at(start.text, start.pos));
    }
    while more && parser.peek_char() == Some('%')
        invariant
            parser@.wf(),
            parser@.text == start.text,
            start.text == old(parser)@.text,
            parser@.pos >= start.pos >= old(parser)@.pos,
            token_at(old(parser)@.text, old(parser)@.pos, "("@) == Some(start.pos),
            ","@.len() == 1,
            more ==> before(pairs_of(list@), pairs_at(parser@.text, parser@.pos)) == pairs_at(
                start.text,
                start.pos,
            ),
            !more ==> pairs_at(start.text, start.pos) == Ok::<
                (Seq<(Seq<char>, Seq<char>)>, int),
                (int, ErrorView),
            >((pairs_of(list@), parser@.pos)),
        decreases parser@.text.len() - parser@.pos,
    {
        let ghost so_far = pairs_of(list@);
        let pair = match parse_pair(parser) {
            Ok(pair) => pair,
            Err(e) => {
                return Err(e);
            },
        };
        let ghost view = pair@;
        list.push(pair);
        assert(pairs_of(list@) =~= so_far + seq![view]);
        more = parser.parse_token(",");
        proof {
            before_twice(so_far, seq![view], pairs_at(parser@.text, parser@.pos));
        }
    }
    assert(pairs_of(list@) + Seq::<(Seq<char>, Seq<char>)>::empty() =~= pairs_of(list@));
    if let Err(e) = parser.expect(")") {
        return Err(e);
    }
    Ok(list)
}

/// Reads the loop that has to come next, behind its mnemonic.
pub fn parse_theta(parser: &mut Parser) -> (r: ParseResult<ThetaSyntax>)
    requires
        old(parser)@.wf(),
    ensures
        reads(
            r,
            old(parser)@,
            final(parser)@,
            theta_at(old(parser)@.text, old(parser)@.pos),
            |t: ThetaSyntax| t@,
        ),
        final(parser)@.wf(),
        final(parser)@.pos >= old(parser)@.pos,
{
    let ports = match parse_port_bindings(parser) {
        Ok(ports) => ports,
        Err(e) => {
            return Err(e);
        },
    };
    match parser.parse_region() {
        Ok(body) => Ok(ThetaSyntax { ports, body }),
        Err(e) => Err(e),
    }
}

fn parse_arm_ports(parser: &mut Parser, count: usize) -> (r: ParseResult<Vec<String>>)
    requires
        old(parser)@.wf(),
    ensures
        reads(
            r,
            old(parser)@,
            final(parser)@,
            ports_at(old(parser)@.text, old(parser)@.pos, 0, count as nat),
            |list: Vec<String>| spelled(list@),
        ),
        final(parser)@.wf(),
        final(parser)@.pos >= old(parser)@.pos,
{
    let ghost start = parser@;
    let mut list: Vec<String> = Vec::new();
    assert(spelled(list@) =~= Seq::<Seq<char>>::empty());
    proof {
        before_nothing(ports_at(start.text, start.pos, 0, count as nat));
    }
    let mut k: usize = 0;
    while k < count
        invariant
            k <= count,
            parser@.wf(),
            parser@.text == start.text,
            parser@.pos >= start.pos,
            start == old(parser)@,
            before(spelled(list@), ports_at(parser@.text, parser@.pos, k as nat, count as nat))
                == ports_at(start.text, start.pos, 0, count as nat),
        decreases count - k,
    {
        let ghost so_far = spelled(list@);
        if k > 0 {
            if let Err(e) = parser.expect(",") {
                return Err(e);
            }
        }
        let name = match parser.expect_value_ref() {
            Ok(name) => name,
            Err(e) => {
                return Err(e);
            },
        };
        let ghost view = name@;
        list.push(name);
        assert(spelled(list@) =~= so_far + seq![view]);
        proof {
            before_twice(
                so_far,
                seq![view],
                ports_at(parser@.text, parser@.pos, (k + 1) as nat, count as nat),
            );
        }
        k += 1;
    }
    assert(spelled(list@) + Seq::<Seq<char>>::empty() =~= spelled(list@));
    Ok(list)
}

fn parse_arms(parser: &mut Parser, count: usize) -> (r: ParseResult<Vec<ArmSyntax>>)
    requires
        old(parser)@.wf(),
    ensures
        reads(
            r,
            old(parser)@,
            final(parser)@,
            arms_at(old(parser)@.text, old(parser)@.pos, count as nat),
            |list: Vec<ArmSyntax>| arms_of(list@),
        ),
        final(parser)@.wf(),
        final(parser)@.pos >= old(parser)@.pos,
{
    proof {
        reveal_strlit("(");
    }
    let ghost start = parser@;
    let mut list: Vec<ArmSyntax> = Vec::new();
    assert(arms_of(list@) =~= Seq::<ArmTree>::empty());
    proof {
        before_nothing(arms_at(start.text, start.pos, count as nat));
    }
    loop
        invariant
            parser@.wf(),
            parser@.text == start.text,
            parser@.pos >= start.pos,
            start == old(parser)@,
            "("@.len() == 1,
            before(arms_of(list@), arms_at(parser@.text, parser@.pos, count as nat)) == arms_at(
                start.text,
                start.pos,
                count as nat,
            ),
        decreases parser@.text.len() - parser@.pos,
    {
        let ghost so_far = arms_of(list@);
        let mut ports: Vec<String> = Vec::new();
        assert(spelled(ports@) =~= Seq::<Seq<char>>::empty());
        if parser.parse_token("(") {
            ports =
            match parse_arm_ports(parser, count) {
                Ok(ports) => ports,
                Err(e) => {
                    return Err(e);
                },
            };
            if let Err(e) = parser.expect(")") {
                return Err(e);
            }
        } else if parser.peek_char() != Some('{') {
            assert(arms_of(list@) + Seq::<ArmTree>::empty() =~= arms_of(list@));
            return Ok(list);
        }
        let body = match parser.parse_region() {
            Ok(body) => body,
            Err(e) => {
                return Err(e);
            },
        };
        let arm = ArmSyntax { ports, body };
        let ghost view = arm@;
        list.push(arm);
        assert(arms_of(list@) =~= so_far + seq![view]);
        proof {
            before_twice(so_far, seq![view], arms_at(parser@.text, parser@.pos, count as nat));
        }
    }
}

/// Reads the choice that has to come next, behind its mnemonic.
pub fn parse_gamma(parser: &mut Parser) -> (r: ParseResult<GammaSyntax>)
    requires
        old(parser)@.wf(),
    ensures
        reads(
            r,
            old(parser)@,
            final(parser)@,
            gamma_at(old(parser)@.text, old(parser)@.pos),
            |g: GammaSyntax| g@,
        ),
        final(parser)@.wf(),
        final(parser)@.pos >= old(parser)@.pos,
{
    let predicate = match parser.expect_value_ref() {
        Ok(predicate) => predicate,
        Err(e) => {
            return Err(e);
        },
    };
    let mut inputs: Vec<String> = Vec::new();
    assert(spelled(inputs@) =~= Seq::<Seq<char>>::empty());
    if parser.parse_token("args") {
        if let Err(e) = parser.expect("(") {
            return Err(e);
        }
        inputs =
        match parser.parse_refs() {
            Ok(inputs) => inputs,
            Err(e) => {
                return Err(e);
            },
        };
        if let Err(e) = parser.expect(")") {
            return Err(e);
        }
    }
    let arms = match parse_arms(parser, inputs.len()) {
        Ok(arms) => arms,
        Err(e) => {
            return Err(e);
        },
    };
    if arms.len() == 0 {
        return Err((parser.span(), Error::ExpectedToken("{")));
    }
    Ok(GammaSyntax { predicate, inputs, arms })
}

/// The ports a `(%port = %init, ..)` clause binds, each minted with its init's
/// type, and the inits they are bound to.
pub struct PortBindings {
    pub ports: Vec<Value>,
    pub inits: Vec<ValueId>,
}

impl Default for PortBindings {
    fn default() -> (r: Self)
        ensures
            r.ports@ == Seq::<Value>::empty(),
            r.inits@ == Seq::<ValueId>::empty(),
    {
        PortBindings { ports: Vec::new(), inits: Vec::new() }
    }
}

/// Where binding ports has led: the context with the ports minted, what the
/// names stand for, and the ports with what enters them.
pub ghost struct BoundView {
    pub context: ContextView,
    pub scope: Seq<(Seq<char>, ValueId)>,
    pub ports: Seq<Value>,
    pub inits: Seq<ValueId>,
}

/// A port minted with the type `ty` under `name`.
pub open spec fn with_port(b: BoundView, name: Seq<char>, init: ValueId) -> BoundView {
    let ty = b.context.type_of(init);
    let id = ValueId(b.context.ir.values.now.len() as u32);
    BoundView {
        context: b.context.with_value(ty, None),
        scope: b.scope.push((name, id)),
        ports: b.ports.push(Value { id, ty, defining_op: None }),
        inits: b.inits.push(init),
    }
}

/// Binds the first `n` of `pairs` in order: what was bound, and the first init
/// that stands for nothing. A port bound earlier can enter a later one.
pub open spec fn bound_pairs(start: BoundView, pairs: Seq<(Seq<char>, Seq<char>)>, n: int) -> (
    BoundView,
    Option<Seq<char>>,
)
    decreases n,
{
    if n <= 0 {
        (start, None)
    } else {
        let (b, failed) = bound_pairs(start, pairs, n - 1);
        match failed {
            Some(_) => (b, failed),
            None => match bound_in(b.scope, pairs[n - 1].1) {
                None => (b, Some(pairs[n - 1].1)),
                Some(init) => (with_port(b, pairs[n - 1].0, init), None),
            },
        }
    }
}

/// Whether every name stands for a live value.
pub open spec fn scope_live(context: ContextView, scope: Seq<(Seq<char>, ValueId)>) -> bool {
    forall|i: int| 0 <= i < scope.len() ==> context.ir.value((#[trigger] scope[i]).1) is Some
}

proof fn bound_is_live(context: ContextView, scope: Seq<(Seq<char>, ValueId)>, name: Seq<char>)
    requires
        scope_live(context, scope),
    ensures
        bound_in(scope, name) matches Some(v) ==> context.ir.value(v) is Some,
    decreases scope.len(),
{
    if scope.len() > 0 && scope.last().0 != name {
        assert forall|i: int| 0 <= i < scope.drop_last().len() implies context.ir.value(
            (#[trigger] scope.drop_last()[i]).1,
        ) is Some by {
            assert(scope.drop_last()[i] == scope[i]);
        }
        bound_is_live(context, scope.drop_last(), name);
    }
}

proof fn failed_stays(start: BoundView, pairs: Seq<(Seq<char>, Seq<char>)>, n: int, m: int)
    requires
        0 <= n <= m,
        bound_pairs(start, pairs, n).1 is Some,
    ensures
        bound_pairs(start, pairs, m) == bound_pairs(start, pairs, n),
    decreases m - n,
{
    if n < m {
        failed_stays(start, pairs, n, m - 1);
    }
}

/// Mints a port for each of `pairs`, of the type of what enters it, and lets its
/// name stand for it.
pub fn bind_ports(context: &mut Context, scope: &mut Scope, pairs: &Vec<PortPair>) -> (r: Result<
    PortBindings,
    Error,
>)
    requires
        old(context).inv(),
        scope_live(old(context)@, old(scope)@),
        old(context)@.ir.values.now.len() + pairs@.len() <= u32::MAX,
    ensures
        final(context).inv(),
        ({
            let start = BoundView {
                context: old(context)@,
                scope: old(scope)@,
                ports: Seq::empty(),
                inits: Seq::empty(),
            };
            let (b, failed) = bound_pairs(start, pairs_of(pairs@), pairs@.len() as int);
            &&& final(context)@ == b.context
            &&& final(scope)@ == b.scope
            &&& match failed {
                None => r is Ok && r->Ok_0.ports@ == b.ports && r->Ok_0.inits@ == b.inits,
                Some(name) => r is Err && r->Err_0@ == ErrorView::UnknownValueRef(name),
            }
        }),
{
    let ghost start = BoundView {
        context: context@,
        scope: scope@,
        ports: Seq::empty(),
        inits: Seq::empty(),
    };
    let ghost names = pairs_of(pairs@);
    let mut bound = PortBindings::default();
    let mut i: usize = 0;
    while i < pairs.len()
        invariant
            i <= pairs.len(),
            context.inv(),
            names == pairs_of(pairs@),
            start == (BoundView {
                context: old(context)@,
                scope: old(scope)@,
                ports: Seq::empty(),
                inits: Seq::empty(),
            }),
            scope_live(context@, scope@),
            context@.ir.values.now.len() + (pairs@.len() - i) <= u32::MAX,
            bound_pairs(start, names, i as int) == (
                BoundView {
                    context: context@,
                    scope: scope@,
                    ports: bound.ports@,
                    inits: bound.inits@,
                },
                None::<Seq<char>>,
            ),
        decreases pairs.len() - i,
    {
        assert(names[i as int] == pairs@[i as int]@);
        proof {
            bound_is_live(context@, scope@, names[i as int].1);
        }
        let init = match scope.resolve_value(pairs[i].init.as_str()) {
            Ok(init) => init,
            Err(e) => {
                proof {
                    failed_stays(start, names, i + 1, pairs@.len() as int);
                }
                return Err(e);
            },
        };
        let ty = context.get_value(init).ty;
        let ghost earlier = context@;
        let ghost names_before = scope@;
        let port = context.create_value(ty, None);
        scope.define_value(pairs[i].port.as_str(), port.id);
        bound.ports.push(port);
        bound.inits.push(init);
        assert forall|k: int| 0 <= k < scope@.len() implies context@.ir.value(
            (#[trigger] scope@[k]).1,
        ) is Some by {
            if k < names_before.len() {
                assert(scope@[k] == names_before[k]);
            }
        }
        i += 1;
    }
    Ok(bound)
}

/// What the generic theta syntax names: the inits, in the order the ports were
/// bound, and the body those ports belong to.
pub struct ParsedTheta {
    pub inits: Vec<ValueId>,
    pub body: RegionId,
    pub result_types: Vec<TypeId>,
}

/// What the generic gamma syntax names.
pub struct ParsedGamma {
    pub predicate: ValueId,
    pub inputs: Vec<ValueId>,
    pub arms: Vec<RegionId>,
    pub result_types: Vec<TypeId>,
}

/// The types of the first `n` of `ports`.
pub open spec fn port_types(ports: Seq<Value>) -> Seq<TypeId> {
    ports.map_values(|v: Value| v.ty)
}

/// The types of `ports`.
pub fn types_of(ports: &Vec<Value>) -> (r: Vec<TypeId>)
    ensures
        r@ == port_types(ports@),
{
    let mut r: Vec<TypeId> = Vec::new();
    let mut i: usize = 0;
    while i < ports.len()
        invariant
            i <= ports.len(),
            r@ == port_types(ports@).take(i as int),
        decreases ports.len() - i,
    {
        r.push(ports[i].ty);
        assert(r@ =~= port_types(ports@).take(i + 1));
        i += 1;
    }
    assert(r@ =~= port_types(ports@));
    r
}

/// Finishes a loop whose ports were bound and whose body was read: puts the
/// results of the body in binding order and names what the loop starts from.
pub fn finish_theta(context: &mut Context, bound: PortBindings, body: RegionId) -> (r: ParsedTheta)
    requires
        old(context).inv(),
        old(context)@.is_nodes(body),
        old(context)@.node_results(body).len() <= MAX_IDS,
        old(context)@.node_ports(body).len() <= MAX_IDS,
    ensures
        final(context).inv(),
        final(context)@ == old(context)@.theta_ordered(body),
        r.inits@ == bound.inits@,
        r.body == body,
        r.result_types@ == port_types(bound.ports@),
{
    let result_types = types_of(&bound.ports);
    order_theta_results(context, body);
    ParsedTheta { inits: bound.inits, body, result_types }
}

/// Finishes a choice whose arms were read: its results have the types of what
/// the first arm yields.
pub fn finish_gamma(
    context: &Context,
    predicate: ValueId,
    inputs: Vec<ValueId>,
    arms: Vec<RegionId>,
) -> (r: ParsedGamma)
    requires
        context.inv(),
        arms@.len() > 0,
        context@.values_typed(context@.region_results(arms@[0])),
    ensures
        r.predicate == predicate,
        r.inputs@ == inputs@,
        r.arms@ == arms@,
        r.result_types@ == context@.types_of(context@.region_results(arms@[0])),
{
    let results = context.region_results(arms[0]);
    let result_types = crate::dialects::print::types_of(context, &results);
    ParsedGamma { predicate, inputs, arms, result_types }
}

/// Where a formatter stands after the head of a loop: the results, the mnemonic,
/// and the ports bound to what enters them.
pub open spec fn theta_head(
    f: FormatView,
    context: ContextView,
    op: OpId,
    name: Seq<char>,
    body: RegionId,
    binding: Binding,
) -> FormatView {
    let prefixed = if context.ir.op(op)->0.results.len() == 0 {
        f
    } else {
        f.written(result_prefix(context, op))
    };
    let ports = sliced(ids_of(context.region_ports(body)), binding.ports);
    let inits = sliced(context.ir.op(op)->0.operands, binding.operands);
    if ports.len() == 0 {
        prefixed.written(name)
    } else {
        prefixed.written(name).written(port_bindings(ports, inits))
    }
}

/// The generic theta printer: the ports bound to their inits, then the body,
/// which is printed as `printed`.
pub fn print_theta(
    fmt: &mut IRFormatter,
    context: &Context,
    op: &OpHandle,
    name: &str,
    body: RegionId,
    binding: &Binding,
    printed: &str,
)
    requires
        context.inv(),
        context@.readable(op.id),
        binding.ports.start <= binding.ports.end,
        binding.operands.start <= binding.operands.end,
    ensures
        final(fmt)@ == theta_head(
            old(fmt)@,
            context@,
            op.id,
            name@,
            body,
            *binding,
        ).written(printed@),
{
    print_result_prefix(fmt, context, op);
    fmt.write(name);
    let ports = slice(&port_ids(context, body), &binding.ports);
    let inits = slice(context.operands_of(op.id), &binding.operands);
    print_port_bindings(fmt, ports.as_slice(), inits.as_slice());
    fmt.write(printed);
}

/// Where a formatter stands after the first `n` arms of a choice, each printed as
/// `printed` says, led by the names of its ports.
pub open spec fn arms_printed(
    f: FormatView,
    context: ContextView,
    arms: Seq<RegionId>,
    ports: IndexRange,
    printed: Seq<Seq<char>>,
    n: int,
) -> FormatView
    decreases n,
{
    if n <= 0 {
        f
    } else {
        let before = arms_printed(f, context, arms, ports, printed, n - 1);
        let names = sliced(ids_of(context.region_ports(arms[n - 1])), ports);
        let led = if names.len() == 0 {
            before
        } else {
            before.written(
                (if before.new_line {
                    "("@
                } else {
                    " ("@
                }) + value_list(names) + ")"@,
            )
        };
        led.written(printed[n - 1])
    }
}

/// Where a formatter stands after the head of a choice: the results, the
/// mnemonic, what decides, and what is forwarded.
pub open spec fn gamma_head(
    f: FormatView,
    context: ContextView,
    op: OpId,
    name: Seq<char>,
    predicate: ValueId,
    operands: IndexRange,
) -> FormatView {
    let prefixed = if context.ir.op(op)->0.results.len() == 0 {
        f
    } else {
        f.written(result_prefix(context, op))
    };
    let inputs = sliced(context.ir.op(op)->0.operands, operands);
    let decided = prefixed.written(name + " "@ + value_name(predicate));
    if inputs.len() == 0 {
        decided
    } else {
        decided.written(" args("@ + value_list(inputs) + ")"@)
    }
}

/// The generic gamma printer: the predicate, the forwarded operands, then each
/// arm's ports and body, which are printed as `printed`.
pub fn print_gamma(
    fmt: &mut IRFormatter,
    context: &Context,
    op: &OpHandle,
    name: &str,
    predicate: ValueId,
    arms: &Vec<RegionId>,
    binding: &Binding,
    printed: &Vec<String>,
)
    requires
        context.inv(),
        context@.readable(op.id),
        binding.ports.start <= binding.ports.end,
        binding.operands.start <= binding.operands.end,
        arms@.len() == printed@.len(),
    ensures
        final(fmt)@ == arms_printed(
            gamma_head(old(fmt)@, context@, op.id, name@, predicate, binding.operands),
            context@,
            arms@,
            binding.ports,
            spelled(printed@),
            arms@.len() as int,
        ),
{
    print_result_prefix(fmt, context, op);
    fmt.write(cat3(name, " ", value_text(predicate).as_str()).as_str());
    let inputs = slice(context.operands_of(op.id), &binding.operands);
    if inputs.len() > 0 {
        fmt.write(cat3(" args(", value_list_text(inputs.as_slice()).as_str(), ")").as_str());
    }
    let ghost head = fmt@;
    let mut i: usize = 0;
    while i < arms.len()
        invariant
            i <= arms.len(),
            arms@.len() == printed@.len(),
            context.inv(),
            binding.ports.start <= binding.ports.end,
            head == gamma_head(old(fmt)@, context@, op.id, name@, predicate, binding.operands),
            fmt@ == arms_printed(
                head,
                context@,
                arms@,
                binding.ports,
                spelled(printed@),
                i as int,
            ),
        decreases arms.len() - i,
    {
        let names = slice(&port_ids(context, arms[i]), &binding.ports);
        if names.len() > 0 {
            let lead: &str = if fmt.at_line_start() {
                "("
            } else {
                " ("
            };
            fmt.write(cat3(lead, value_list_text(names.as_slice()).as_str(), ")").as_str());
        }
        fmt.write(printed[i].as_str());
        assert(spelled(printed@)[i as int] == printed@[i as int]@);
        i += 1;
    }
}

} // verus!

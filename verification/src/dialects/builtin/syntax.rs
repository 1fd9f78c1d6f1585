//! The text of the functions, calls, declarations, branches and tuples of the
//! `builtin` dialect. Values are written by their numbers.
use vstd::prelude::*;
use vstd::string::*;
use crate::attributes::AttrView;
use crate::attributes::AttributeValue;
use crate::builder::BuilderView;
use crate::dialects::builtin::control::BranchOpBuilder;
use crate::dialects::func::syntax::optional_name;
use crate::dialects::func::syntax::param_trees;
use crate::dialects::func::syntax::ParamSyntax;
use crate::error::Error;
use crate::error::ErrorView;
use crate::ids::BlockId;
use crate::ids::ValueId;
use crate::parse::attrs::attr_at;
use crate::parse::attrs::optional_attr;
use crate::parse::lists::arrow_type_at;
use crate::parse::lists::optional_tree;
use crate::parse::lists::type_run_at;
use crate::parse::reads;
use crate::parse::scope::spelled;
use crate::parse::text::is_digit;
use crate::parse::text::number_at;
use crate::parse::text::number_of;
use crate::parse::text::past;
use crate::parse::text::quote_end;
use crate::parse::text::region_at;
use crate::parse::text::sigil_at;
use crate::parse::text::symbol_name;
use crate::parse::text::token_at;
use crate::parse::text::value_ref;
use crate::parse::text::Parser;
use crate::parse::types::before;
use crate::parse::types::before_nothing;
use crate::parse::types::before_twice;
use crate::parse::types::trees_of;
use crate::parse::types::type_at;
use crate::parse::types::TypeSyntax;
use crate::parse::types::TypeTree;
use crate::parse::ParseResult;
use crate::parse::Parsed;
use crate::parse::Span;

verus! {

/// Whether a name is made of digits only.
pub open spec fn all_digits(name: Seq<char>) -> bool {
    name.len() > 0 && forall|k: int| 0 <= k < name.len() ==> is_digit(#[trigger] name[k])
}

/// The number a name spells, where 32 bits hold it.
pub open spec fn named_number(name: Seq<char>) -> Option<u32> {
    if all_digits(name) && number_of(name) <= u32::MAX {
        Some(number_of(name) as u32)
    } else {
        None
    }
}

fn number_named(name: &str) -> (r: Option<u32>)
    ensures
        r == named_number(name@),
{
    let n: usize = name.unicode_len();
    if n == 0 {
        return None;
    }
    let mut value: u64 = 0;
    let mut over = false;
    let mut i: usize = 0;
    assert(name@.take(0) =~= Seq::<char>::empty());
    while i < n
        invariant
            i <= n,
            n == name@.len(),
            n > 0,
            forall|k: int| 0 <= k < i ==> is_digit(#[trigger] name@[k]),
            !over ==> value == number_of(name@.take(i as int)) && value <= u32::MAX,
            over ==> number_of(name@.take(i as int)) > u32::MAX,
        decreases n - i,
    {
        let c: char = name.get_char(i);
        if !('0' <= c && c <= '9') {
            assert(!is_digit(name@[i as int]));
            return None;
        }
        assert(name@.take(i + 1).drop_last() =~= name@.take(i as int));
        assert(name@.take(i + 1).last() == c);
        let d: u32 = c as u32 - 48;
        if !over {
            value = value * 10 + d as u64;
            if value > u32::MAX as u64 {
                over = true;
            }
        }
        i += 1;
    }
    assert(name@.take(n as int) =~= name@);
    if over {
        None
    } else {
        Some(value as u32)
    }
}

/// The value behind `%` that has to come next, by its number. A name that is no
/// number is reported where `named`.
pub open spec fn id_at(text: Seq<char>, pos: int, named: bool) -> Parsed<ValueId> {
    match value_ref(text, pos) {
        Err(e) => Err(e),
        Ok((name, p)) => match named_number(name) {
            Some(n) => Ok((ValueId(n), p)),
            None => Err(
                (
                    p,
                    if named {
                        ErrorView::UnknownValueRef(name)
                    } else {
                        ErrorView::ExpectedValueRef
                    },
                ),
            ),
        },
    }
}

/// The values that have to come next, separated by commas.
pub open spec fn ids_at(text: Seq<char>, pos: int, named: bool) -> Parsed<Seq<ValueId>>
    decreases text.len() - pos,
{
    match id_at(text, pos, named) {
        Err(e) => Err(e),
        Ok((id, p)) => match token_at(text, p, ","@) {
            None => Ok((seq![id], p)),
            Some(p) => if !(pos < p <= text.len()) {
                Err((p, ErrorView::ExpectedValueRef))
            } else {
                before(seq![id], ids_at(text, p, named))
            },
        },
    }
}

/// The values and types of `%a, %b : t1, t2)`, which has to come next.
pub open spec fn typed_ids_at(text: Seq<char>, pos: int, named: bool) -> Parsed<
    (Seq<ValueId>, Seq<TypeTree>),
> {
    match ids_at(text, pos, named) {
        Err(e) => Err(e),
        Ok((ids, p)) => match token_at(text, p, ":"@) {
            None => Err((p, ErrorView::ExpectedToken(":"@))),
            Some(p) => match type_run_at(text, p) {
                Err(e) => Err(e),
                Ok((types, p)) => match token_at(text, p, ")"@) {
                    None => Err((p, ErrorView::ExpectedToken(")"@))),
                    Some(p) => Ok(((ids, types), p)),
                },
            },
        },
    }
}

/// The values and types of `(%a, %b : t1, t2)`, which has to come next.
pub open spec fn arg_ids_at(text: Seq<char>, pos: int) -> Parsed<(Seq<ValueId>, Seq<TypeTree>)> {
    match token_at(text, pos, "("@) {
        None => Err((pos, ErrorView::ExpectedToken("("@))),
        Some(p) => match token_at(text, p, ")"@) {
            Some(p) => Ok(((Seq::empty(), Seq::empty()), p)),
            None => typed_ids_at(text, p, false),
        },
    }
}

fn parse_id(parser: &mut Parser, named: bool) -> (r: ParseResult<ValueId>)
    requires
        old(parser)@.wf(),
    ensures
        reads(
            r,
            old(parser)@,
            final(parser)@,
            id_at(old(parser)@.text, old(parser)@.pos, named),
            |v: ValueId| v,
        ),
        final(parser)@.wf(),
        final(parser)@.pos >= old(parser)@.pos,
        r is Ok ==> final(parser)@.pos > old(parser)@.pos,
{
    let name = match parser.expect_value_ref() {
        Ok(name) => name,
        Err(e) => {
            return Err(e);
        },
    };
    match number_named(name.as_str()) {
        Some(n) => Ok(ValueId(n)),
        None => if named {
            Err((parser.span(), Error::UnknownValueRef(name)))
        } else {
            Err((parser.span(), Error::ExpectedValueRef))
        },
    }
}

fn parse_ids(parser: &mut Parser, named: bool) -> (r: ParseResult<Vec<ValueId>>)
    requires
        old(parser)@.wf(),
    ensures
        reads(
            r,
            old(parser)@,
            final(parser)@,
            ids_at(old(parser)@.text, old(parser)@.pos, named),
            |list: Vec<ValueId>| list@,
        ),
        final(parser)@.wf(),
        final(parser)@.pos >= old(parser)@.pos,
{
    proof {
        reveal_strlit(",");
    }
    let ghost start = parser@;
    let mut list: Vec<ValueId> = Vec::new();
    proof {
        before_nothing(ids_at(start.text, start.pos, named));
    }
    loop
        invariant
            parser@.wf(),
            parser@.text == start.text,
            parser@.pos >= start.pos,
            start == old(parser)@,
            ","@.len() == 1,
            before(list@, ids_at(parser@.text, parser@.pos, named)) == ids_at(
                start.text,
                start.pos,
                named,
            ),
        decreases parser@.text.len() - parser@.pos,
    {
        let ghost so_far = list@;
        let id = match parse_id(parser, named) {
            Ok(id) => id,
            Err(e) => {
                return Err(e);
            },
        };
        list.push(id);
        assert(list@ =~= so_far + seq![id]);
        if !parser.parse_token(",") {
            return Ok(list);
        }
        proof {
            before_twice(so_far, seq![id], ids_at(parser@.text, parser@.pos, named));
        }
    }
}

fn parse_typed_ids(parser: &mut Parser, named: bool) -> (r: ParseResult<
    (Vec<ValueId>, Vec<TypeSyntax>),
>)
    requires
        old(parser)@.wf(),
    ensures
        reads(
            r,
            old(parser)@,
            final(parser)@,
            typed_ids_at(old(parser)@.text, old(parser)@.pos, named),
            |pair: (Vec<ValueId>, Vec<TypeSyntax>)| (pair.0@, trees_of(pair.1@)),
        ),
        final(parser)@.wf(),
        final(parser)@.pos >= old(parser)@.pos,
{
    let ids = match parse_ids(parser, named) {
        Ok(ids) => ids,
        Err(e) => {
            return Err(e);
        },
    };
    if let Err(e) = parser.expect(":") {
        return Err(e);
    }
    let types = match parser.parse_type_run() {
        Ok(types) => types,
        Err(e) => {
            return Err(e);
        },
    };
    if let Err(e) = parser.expect(")") {
        return Err(e);
    }
    Ok((ids, types))
}

/// Reads `(%a, %b : t1, t2)`.
pub fn parse_arg_list(parser: &mut Parser) -> (r: ParseResult<(Vec<ValueId>, Vec<TypeSyntax>)>)
    requires
        old(parser)@.wf(),
    ensures
        reads(
            r,
            old(parser)@,
            final(parser)@,
            arg_ids_at(old(parser)@.text, old(parser)@.pos),
            |pair: (Vec<ValueId>, Vec<TypeSyntax>)| (pair.0@, trees_of(pair.1@)),
        ),
        final(parser)@.wf(),
        final(parser)@.pos >= old(parser)@.pos,
{
    if let Err(e) = parser.expect("(") {
        return Err(e);
    }
    if parser.parse_token(")") {
        let r: (Vec<ValueId>, Vec<TypeSyntax>) = (Vec::new(), Vec::new());
        assert(trees_of(r.1@) =~= Seq::<TypeTree>::empty());
        return Ok(r);
    }
    parse_typed_ids(parser, false)
}

/// The number of the block a label names: `bb` and a number.
pub open spec fn label_number(label: Seq<char>) -> Option<u32> {
    if label.len() > 2 && label[0] == 'b' && label[1] == 'b' {
        named_number(label.skip(2))
    } else {
        None
    }
}

/// The number of the block behind `^bb`, where one comes next, and where it ends.
pub open spec fn block_index_at(text: Seq<char>, pos: int) -> Option<(u32, int)> {
    match sigil_at(text, pos, '^') {
        None => None,
        Some((label, p)) => match label_number(label) {
            Some(n) => Some((n, p)),
            None => None,
        },
    }
}

/// Where a branch leads and what it forwards, as it is written.
pub struct SuccessorSyntax {
    pub index: u32,
    pub args: Vec<ValueId>,
    pub types: Vec<TypeSyntax>,
}

/// What a written successor says.
pub ghost struct SuccessorTree {
    pub index: u32,
    pub args: Seq<ValueId>,
    pub types: Seq<TypeTree>,
}

impl View for SuccessorSyntax {
    type V = SuccessorTree;

    open spec fn view(&self) -> SuccessorTree {
        SuccessorTree { index: self.index, args: self.args@, types: trees_of(self.types@) }
    }
}

/// The successor that has to come next.
pub open spec fn successor_at(text: Seq<char>, pos: int) -> Parsed<SuccessorTree> {
    match block_index_at(text, pos) {
        None => Err((pos, ErrorView::ExpectedToken("^bb"@))),
        Some((index, p)) => match token_at(text, p, "("@) {
            None => Ok(
                (SuccessorTree { index, args: Seq::empty(), types: Seq::empty() }, p),
            ),
            Some(p) => match typed_ids_at(text, p, true) {
                Err(e) => Err(e),
                Ok(((args, types), p)) => Ok((SuccessorTree { index, args, types }, p)),
            },
        },
    }
}

fn parse_block_index(parser: &mut Parser) -> (r: Option<u32>)
    requires
        old(parser)@.wf(),
    ensures
        match block_index_at(old(parser)@.text, old(parser)@.pos) {
            Some((n, end)) => r == Some(n) && final(parser)@ == old(parser)@.at(end),
            None => r is None && final(parser)@ == old(parser)@,
        },
        final(parser)@.wf(),
        final(parser)@.pos >= old(parser)@.pos,
{
    let start: usize = parser.pos();
    let label = match parser.parse_block_label() {
        Some(label) => label,
        None => {
            return None;
        },
    };
    let n: usize = label.as_str().unicode_len();
    if n > 2 && label.as_str().get_char(0) == 'b' && label.as_str().get_char(1) == 'b' {
        let digits = label.as_str().substring_char(2, n);
        assert(digits@ =~= label@.skip(2));
        if let Some(index) = number_named(digits) {
            return Some(index);
        }
    }
    parser.set_pos(start);
    None
}

/// Reads the successor that has to come next.
pub fn parse_successor(parser: &mut Parser) -> (r: ParseResult<SuccessorSyntax>)
    requires
        old(parser)@.wf(),
    ensures
        reads(
            r,
            old(parser)@,
            final(parser)@,
            successor_at(old(parser)@.text, old(parser)@.pos),
            |s: SuccessorSyntax| s@,
        ),
        final(parser)@.wf(),
        final(parser)@.pos >= old(parser)@.pos,
{
    let index: u32 = match parse_block_index(parser) {
        Some(index) => index,
        None => {
            return Err((parser.span(), Error::ExpectedToken("^bb")));
        },
    };
    if !parser.parse_token("(") {
        let r = SuccessorSyntax { index, args: Vec::new(), types: Vec::new() };
        assert(r@.types =~= Seq::<TypeTree>::empty());
        return Ok(r);
    }
    match parse_typed_ids(parser, true) {
        Ok((args, types)) => Ok(SuccessorSyntax { index, args, types }),
        Err(e) => Err(e),
    }
}

impl SuccessorSyntax {
    /// The builder of a branch to the block the number was resolved to.
    pub fn branch(self, dest: BlockId) -> (r: BranchOpBuilder)
        ensures
            r.0@ == BuilderView::fresh("builtin"@, "br"@).with_group(
                self@.args,
            ).with_segments().with_attr(
                "dest"@,
                AttrView::Block(dest),
            ),
    {
        BranchOpBuilder::new().dest_args(self.args).dest(dest)
    }
}

/// A conditional branch as it is written.
pub struct CondBranchSyntax {
    pub condition: ValueId,
    pub true_dest: SuccessorSyntax,
    pub false_dest: SuccessorSyntax,
}

/// What a written conditional branch says.
pub ghost struct CondBranchTree {
    pub condition: ValueId,
    pub true_dest: SuccessorTree,
    pub false_dest: SuccessorTree,
}

impl View for CondBranchSyntax {
    type V = CondBranchTree;

    open spec fn view(&self) -> CondBranchTree {
        CondBranchTree {
            condition: self.condition,
            true_dest: self.true_dest@,
            false_dest: self.false_dest@,
        }
    }
}

/// The conditional branch that has to come next, behind its mnemonic.
pub open spec fn cond_br_at(text: Seq<char>, pos: int) -> Parsed<CondBranchTree> {
    match id_at(text, pos, true) {
        Err(e) => Err(e),
        Ok((condition, p)) => match token_at(text, p, ","@) {
            None => Err((p, ErrorView::ExpectedToken(","@))),
            Some(p) => match successor_at(text, p) {
                Err(e) => Err(e),
                Ok((true_dest, p)) => match token_at(text, p, ","@) {
                    None => Err((p, ErrorView::ExpectedToken(","@))),
                    Some(p) => match successor_at(text, p) {
                        Err(e) => Err(e),
                        Ok((false_dest, p)) => Ok(
                            (CondBranchTree { condition, true_dest, false_dest }, p),
                        ),
                    },
                },
            },
        },
    }
}

impl CondBranchSyntax {
    /// Reads the conditional branch that has to come next, behind its mnemonic.
    pub fn parse(parser: &mut Parser) -> (r: ParseResult<CondBranchSyntax>)
        requires
            old(parser)@.wf(),
        ensures
            reads(
                r,
                old(parser)@,
                final(parser)@,
                cond_br_at(old(parser)@.text, old(parser)@.pos),
                |c: CondBranchSyntax| c@,
            ),
            final(parser)@.wf(),
    {
        let condition = match parse_id(parser, true) {
            Ok(condition) => condition,
            Err(e) => {
                return Err(e);
            },
        };
        if let Err(e) = parser.expect(",") {
            return Err(e);
        }
        let true_dest = match parse_successor(parser) {
            Ok(dest) => dest,
            Err(e) => {
                return Err(e);
            },
        };
        if let Err(e) = parser.expect(",") {
            return Err(e);
        }
        match parse_successor(parser) {
            Ok(false_dest) => Ok(CondBranchSyntax { condition, true_dest, false_dest }),
            Err(e) => Err(e),
        }
    }
}

/// A function as it is written.
pub struct FuncSyntax {
    pub name: String,
    pub params: Vec<ParamSyntax>,
    pub ret: Option<TypeSyntax>,
    pub body: Span,
}

/// What a written function says.
pub ghost struct FuncTree {
    pub name: Seq<char>,
    pub params: Seq<(Seq<char>, TypeTree)>,
    pub ret: Option<TypeTree>,
    pub body: (int, int),
}

impl View for FuncSyntax {
    type V = FuncTree;

    open spec fn view(&self) -> FuncTree {
        FuncTree {
            name: self.name@,
            params: param_trees(self.params@),
            ret: optional_tree(self.ret),
            body: (self.body.start as int, self.body.end as int),
        }
    }
}

/// `%name: type`, which has to come next.
pub open spec fn param_at(text: Seq<char>, pos: int) -> Parsed<(Seq<char>, TypeTree)> {
    match value_ref(text, pos) {
        Err(e) => Err(e),
        Ok((name, p)) => match token_at(text, p, ":"@) {
            None => Err((p, ErrorView::ExpectedToken(":"@))),
            Some(p) => match type_at(text, p) {
                Err(e) => Err(e),
                Ok((ty, p)) => Ok(((name, ty), p)),
            },
        },
    }
}

/// The parameters that have to come next, separated by commas, up to the closing
/// bracket.
pub open spec fn params_at(text: Seq<char>, pos: int) -> Parsed<Seq<(Seq<char>, TypeTree)>>
    decreases text.len() - pos,
{
    match param_at(text, pos) {
        Err(e) => Err(e),
        Ok((param, p)) => match token_at(text, p, ")"@) {
            Some(p) => Ok((seq![param], p)),
            None => match token_at(text, p, ","@) {
                None => Err((p, ErrorView::ExpectedToken(","@))),
                Some(p) => if !(pos < p <= text.len()) {
                    Err((p, ErrorView::ExpectedValueRef))
                } else {
                    before(seq![param], params_at(text, p))
                },
            },
        },
    }
}

/// The parameter bracket that has to come next.
pub open spec fn bracket_at(text: Seq<char>, pos: int) -> Parsed<Seq<(Seq<char>, TypeTree)>> {
    match token_at(text, pos, "("@) {
        None => Err((pos, ErrorView::ExpectedToken("("@))),
        Some(p) => match token_at(text, p, ")"@) {
            Some(p) => Ok((Seq::empty(), p)),
            None => params_at(text, p),
        },
    }
}

/// The function that has to come next, behind its mnemonic.
pub open spec fn func_at(text: Seq<char>, pos: int) -> Parsed<FuncTree> {
    match symbol_name(text, pos) {
        Err(e) => Err(e),
        Ok((name, p)) => match bracket_at(text, p) {
            Err(e) => Err(e),
            Ok((params, p)) => match arrow_type_at(text, p) {
                Err(e) => Err(e),
                Ok((ret, p)) => match region_at(text, p) {
                    Err(e) => Err(e),
                    Ok((body, p)) => Ok((FuncTree { name, params, ret, body }, p)),
                },
            },
        },
    }
}

fn parse_param(parser: &mut Parser) -> (r: ParseResult<ParamSyntax>)
    requires
        old(parser)@.wf(),
    ensures
        reads(
            r,
            old(parser)@,
            final(parser)@,
            param_at(old(parser)@.text, old(parser)@.pos),
            |p: ParamSyntax| p@,
        ),
        final(parser)@.wf(),
        final(parser)@.pos >= old(parser)@.pos,
        r is Ok ==> final(parser)@.pos > old(parser)@.pos,
{
    let name = match parser.expect_value_ref() {
        Ok(name) => name,
        Err(e) => {
            return Err(e);
        },
    };
    if let Err(e) = parser.expect(":") {
        return Err(e);
    }
    match parser.parse_type() {
        Ok(ty) => Ok(ParamSyntax { name, ty }),
        Err(e) => Err(e),
    }
}

fn parse_bracket(parser: &mut Parser) -> (r: ParseResult<Vec<ParamSyntax>>)
    requires
        old(parser)@.wf(),
    ensures
        reads(
            r,
            old(parser)@,
            final(parser)@,
            bracket_at(old(parser)@.text, old(parser)@.pos),
            |list: Vec<ParamSyntax>| param_trees(list@),
        ),
        final(parser)@.wf(),
        final(parser)@.pos >= old(parser)@.pos,
{
    proof {
        reveal_strlit(",");
    }
    if let Err(e) = parser.expect("(") {
        return Err(e);
    }
    let mut list: Vec<ParamSyntax> = Vec::new();
    assert(param_trees(list@) =~= Seq::<(Seq<char>, TypeTree)>::empty());
    if parser.parse_token(")") {
        return Ok(list);
    }
    let ghost start = parser@;
    proof {
        before_nothing(params_at(start.text, start.pos));
    }
    loop
        invariant
            parser@.wf(),
            parser@.text == start.text,
            start.text == old(parser)@.text,
            parser@.pos >= start.pos >= old(parser)@.pos,
            bracket_at(old(parser)@.text, old(parser)@.pos) == params_at(start.text, start.pos),
            ","@.len() == 1,
            before(param_trees(list@), params_at(parser@.text, parser@.pos)) == params_at(
                start.text,
                start.pos,
            ),
        decreases parser@.text.len() - parser@.pos,
    {
        let ghost so_far = param_trees(list@);
        let param = match parse_param(parser) {
            Ok(param) => param,
            Err(e) => {
                return Err(e);
            },
        };
        let ghost view = param@;
        list.push(param);
        assert(param_trees(list@) =~= so_far + seq![view]);
        if parser.parse_token(")") {
            return Ok(list);
        }
        if let Err(e) = parser.expect(",") {
            return Err(e);
        }
        proof {
            before_twice(so_far, seq![view], params_at(parser@.text, parser@.pos));
        }
    }
}

impl FuncSyntax {
    /// Reads the function that has to come next, behind its mnemonic.
    pub fn parse(parser: &mut Parser) -> (r: ParseResult<FuncSyntax>)
        requires
            old(parser)@.wf(),
        ensures
            reads(
                r,
                old(parser)@,
                final(parser)@,
                func_at(old(parser)@.text, old(parser)@.pos),
                |f: FuncSyntax| f@,
            ),
            final(parser)@.wf(),
    {
        let name = match parser.expect_symbol_name() {
            Ok(name) => name,
            Err(e) => {
                return Err(e);
            },
        };
        let params = match parse_bracket(parser) {
            Ok(params) => params,
            Err(e) => {
                return Err(e);
            },
        };
        let ret = match parser.parse_ret_type() {
            Ok(ret) => ret,
            Err(e) => {
                return Err(e);
            },
        };
        match parser.parse_region() {
            Ok(body) => Ok(FuncSyntax { name, params, ret, body }),
            Err(e) => Err(e),
        }
    }
}

/// A direct call as it is written.
pub struct CallSyntax {
    pub callee: String,
    pub args: Vec<ValueId>,
    pub arg_types: Vec<TypeSyntax>,
    pub ret: Option<TypeSyntax>,
}

/// What a written call says, of a callee named by `C`.
pub ghost struct CallTree<C> {
    pub callee: C,
    pub args: Seq<ValueId>,
    pub arg_types: Seq<TypeTree>,
    pub ret: Option<TypeTree>,
}

impl View for CallSyntax {
    type V = CallTree<Seq<char>>;

    open spec fn view(&self) -> CallTree<Seq<char>> {
        CallTree {
            callee: self.callee@,
            args: self.args@,
            arg_types: trees_of(self.arg_types@),
            ret: optional_tree(self.ret),
        }
    }
}

/// What a call hands over and what it gives, behind its callee.
pub open spec fn call_rest_at<C>(text: Seq<char>, callee: Parsed<C>) -> Parsed<CallTree<C>> {
    match callee {
        Err(e) => Err(e),
        Ok((callee, p)) => match arg_ids_at(text, p) {
            Err(e) => Err(e),
            Ok(((args, arg_types), p)) => match arrow_type_at(text, p) {
                Err(e) => Err(e),
                Ok((ret, p)) => Ok((CallTree { callee, args, arg_types, ret }, p)),
            },
        },
    }
}

impl CallSyntax {
    /// Reads the call that has to come next, behind its mnemonic.
    pub fn parse(parser: &mut Parser) -> (r: ParseResult<CallSyntax>)
        requires
            old(parser)@.wf(),
        ensures
            reads(
                r,
                old(parser)@,
                final(parser)@,
                call_rest_at(
                    old(parser)@.text,
                    symbol_name(old(parser)@.text, old(parser)@.pos),
                ),
                |c: CallSyntax| c@,
            ),
            final(parser)@.wf(),
    {
        let callee = match parser.expect_symbol_name() {
            Ok(callee) => callee,
            Err(e) => {
                return Err(e);
            },
        };
        let (args, arg_types) = match parse_arg_list(parser) {
            Ok(list) => list,
            Err(e) => {
                return Err(e);
            },
        };
        match parser.parse_ret_type() {
            Ok(ret) => Ok(CallSyntax { callee, args, arg_types, ret }),
            Err(e) => Err(e),
        }
    }
}

/// A call through a value as it is written.
pub struct IndirectCallSyntax {
    pub callee: ValueId,
    pub args: Vec<ValueId>,
    pub arg_types: Vec<TypeSyntax>,
    pub ret: Option<TypeSyntax>,
}

impl View for IndirectCallSyntax {
    type V = CallTree<ValueId>;

    open spec fn view(&self) -> CallTree<ValueId> {
        CallTree {
            callee: self.callee,
            args: self.args@,
            arg_types: trees_of(self.arg_types@),
            ret: optional_tree(self.ret),
        }
    }
}

impl IndirectCallSyntax {
    /// Reads the call that has to come next, behind its mnemonic.
    pub fn parse(parser: &mut Parser) -> (r: ParseResult<IndirectCallSyntax>)
        requires
            old(parser)@.wf(),
        ensures
            reads(
                r,
                old(parser)@,
                final(parser)@,
                call_rest_at(
                    old(parser)@.text,
                    id_at(old(parser)@.text, old(parser)@.pos, false),
                ),
                |c: IndirectCallSyntax| c@,
            ),
            final(parser)@.wf(),
    {
        let callee = match parse_id(parser, false) {
            Ok(callee) => callee,
            Err(e) => {
                return Err(e);
            },
        };
        let (args, arg_types) = match parse_arg_list(parser) {
            Ok(list) => list,
            Err(e) => {
                return Err(e);
            },
        };
        match parser.parse_ret_type() {
            Ok(ret) => Ok(IndirectCallSyntax { callee, args, arg_types, ret }),
            Err(e) => Err(e),
        }
    }
}

/// A tuple as it is written: the names of its elements and its type.
pub struct TupleSyntax {
    pub elements: Vec<String>,
    pub ty: TypeSyntax,
}

impl View for TupleSyntax {
    type V = (Seq<Seq<char>>, TypeTree);

    open spec fn view(&self) -> (Seq<Seq<char>>, TypeTree) {
        (spelled(self.elements@), self.ty@)
    }
}

/// The names of the elements that come next, separated by commas: none where no
/// name does.
pub open spec fn elements_at(text: Seq<char>, pos: int) -> Parsed<Seq<Seq<char>>> {
    match sigil_at(text, pos, '%') {
        None => Ok((Seq::empty(), pos)),
        Some(_) => crate::parse::lists::names_at(text, pos),
    }
}

/// The tuple that has to come next, behind its mnemonic.
pub open spec fn tuple_at(text: Seq<char>, pos: int) -> Parsed<(Seq<Seq<char>>, TypeTree)> {
    match elements_at(text, pos) {
        Err(e) => Err(e),
        Ok((elements, p)) => match token_at(text, p, ":"@) {
            None => Err((p, ErrorView::ExpectedToken(":"@))),
            Some(p) => match type_at(text, p) {
                Err(e) => Err(e),
                Ok((ty, p)) => Ok(((elements, ty), p)),
            },
        },
    }
}

impl TupleSyntax {
    /// Reads the tuple that has to come next, behind its mnemonic.
    pub fn parse(parser: &mut Parser) -> (r: ParseResult<TupleSyntax>)
        requires
            old(parser)@.wf(),
        ensures
            reads(
                r,
                old(parser)@,
                final(parser)@,
                tuple_at(old(parser)@.text, old(parser)@.pos),
                |t: TupleSyntax| t@,
            ),
            final(parser)@.wf(),
    {
        let start: usize = parser.pos();
        let mut elements: Vec<String> = Vec::new();
        assert(spelled(elements@) =~= Seq::<Seq<char>>::empty());
        if parser.parse_value_ref().is_some() {
            parser.set_pos(start);
            elements =
            match parser.parse_names() {
                Ok(elements) => elements,
                Err(e) => {
                    return Err(e);
                },
            };
        }
        if let Err(e) = parser.expect(":") {
            return Err(e);
        }
        match parser.parse_type() {
            Ok(ty) => Ok(TupleSyntax { elements, ty }),
            Err(e) => Err(e),
        }
    }
}

/// A global object as it is written.
pub struct GlobalSyntax {
    pub private: bool,
    pub is_external: bool,
    pub name: String,
    pub size: Option<u64>,
    pub align: Option<u64>,
    pub section: Option<String>,
    pub bytes: Option<AttributeValue>,
    pub relocations: Option<AttributeValue>,
}

/// What a written global says.
pub ghost struct GlobalTree {
    pub private: bool,
    pub is_external: bool,
    pub name: Seq<char>,
    pub size: Option<u64>,
    pub align: Option<u64>,
    pub section: Option<Seq<char>>,
    pub bytes: Option<AttrView>,
    pub relocations: Option<AttrView>,
}

impl View for GlobalSyntax {
    type V = GlobalTree;

    open spec fn view(&self) -> GlobalTree {
        GlobalTree {
            private: self.private,
            is_external: self.is_external,
            name: self.name@,
            size: self.size,
            align: self.align,
            section: optional_name(self.section),
            bytes: optional_attr(self.bytes),
            relocations: optional_attr(self.relocations),
        }
    }
}

/// The number behind `keyword`, where that comes next, which is not negative.
pub open spec fn keyed_number_at(text: Seq<char>, pos: int, keyword: Seq<char>) -> Parsed<
    Option<u64>,
> {
    match token_at(text, pos, keyword) {
        None => Ok((None, pos)),
        Some(p) => match number_at(text, p) {
            None => Err((p, ErrorView::ExpectedToken("a non-negative number"@))),
            Some((n, p)) => if n < 0 {
                Err((p, ErrorView::ExpectedToken("a non-negative number"@)))
            } else {
                Ok((Some(n as u64), p))
            },
        },
    }
}

/// The string behind `section`, where that comes next.
pub open spec fn section_at(text: Seq<char>, pos: int) -> Parsed<Option<Seq<char>>> {
    match token_at(text, pos, "section"@) {
        None => Ok((None, pos)),
        Some(p) => match token_at(text, p, "\""@) {
            None => Err((p, ErrorView::ExpectedToken("section name"@))),
            Some(q) => match quote_end(text, q) {
                None => Err((p, ErrorView::ExpectedToken("section name"@))),
                Some(end) => Ok((Some(text.subrange(q, end)), end + 1)),
            },
        },
    }
}

/// The attribute value behind `keyword`, where that comes next.
pub open spec fn keyed_value_at(text: Seq<char>, pos: int, keyword: Seq<char>) -> Parsed<
    Option<AttrView>,
> {
    match token_at(text, pos, keyword) {
        None => Ok((None, pos)),
        Some(p) => match attr_at(text, p) {
            Err(e) => Err(e),
            Ok((None, p)) => Err((p, ErrorView::ExpectedToken("attribute value"@))),
            Ok((value, p)) => Ok((value, p)),
        },
    }
}

/// The global that has to come next, behind its mnemonic.
pub open spec fn global_at(text: Seq<char>, pos: int) -> Parsed<GlobalTree> {
    let private = token_at(text, pos, "private"@) is Some;
    let p = past(text, pos, "private"@);
    let is_external = token_at(text, p, "external"@) is Some;
    match symbol_name(text, past(text, p, "external"@)) {
        Err(e) => Err(e),
        Ok((name, p)) => match keyed_number_at(text, p, "size"@) {
            Err(e) => Err(e),
            Ok((size, p)) => match keyed_number_at(text, p, "align"@) {
                Err(e) => Err(e),
                Ok((align, p)) => match section_at(text, p) {
                    Err(e) => Err(e),
                    Ok((section, p)) => match keyed_value_at(text, p, "bytes"@) {
                        Err(e) => Err(e),
                        Ok((bytes, p)) => match keyed_value_at(text, p, "relocations"@) {
                            Err(e) => Err(e),
                            Ok((relocations, p)) => Ok(
                                (
                                    GlobalTree {
                                        private,
                                        is_external,
                                        name,
                                        size,
                                        align,
                                        section,
                                        bytes,
                                        relocations,
                                    },
                                    p,
                                ),
                            ),
                        },
                    },
                },
            },
        },
    }
}

fn parse_keyed_number(parser: &mut Parser, keyword: &'static str) -> (r: ParseResult<Option<u64>>)
    requires
        old(parser)@.wf(),
    ensures
        reads(
            r,
            old(parser)@,
            final(parser)@,
            keyed_number_at(old(parser)@.text, old(parser)@.pos, keyword@),
            |n: Option<u64>| n,
        ),
        final(parser)@.wf(),
{
    if !parser.parse_token(keyword) {
        return Ok(None);
    }
    match parser.parse_number() {
        Some(n) => if n >= 0 {
            Ok(Some(n as u64))
        } else {
            Err((parser.span(), Error::ExpectedToken("a non-negative number")))
        },
        None => Err((parser.span(), Error::ExpectedToken("a non-negative number"))),
    }
}

fn parse_section(parser: &mut Parser) -> (r: ParseResult<Option<String>>)
    requires
        old(parser)@.wf(),
    ensures
        reads(
            r,
            old(parser)@,
            final(parser)@,
            section_at(old(parser)@.text, old(parser)@.pos),
            |s: Option<String>| optional_name(s),
        ),
        final(parser)@.wf(),
{
    if !parser.parse_token("section") {
        return Ok(None);
    }
    let mark: usize = parser.pos();
    if parser.parse_token("\"") {
        let start: usize = parser.pos();
        if let Some(end) = parser.quote_to(start) {
            let s = parser.piece(start, end);
            parser.set_pos(end + 1);
            return Ok(Some(s));
        }
        parser.set_pos(mark);
    }
    Err((parser.span(), Error::ExpectedToken("section name")))
}

fn parse_keyed_value(parser: &mut Parser, keyword: &'static str) -> (r: ParseResult<
    Option<AttributeValue>,
>)
    requires
        old(parser)@.wf(),
    ensures
        reads(
            r,
            old(parser)@,
            final(parser)@,
            keyed_value_at(old(parser)@.text, old(parser)@.pos, keyword@),
            |v: Option<AttributeValue>| optional_attr(v),
        ),
        final(parser)@.wf(),
{
    if !parser.parse_token(keyword) {
        return Ok(None);
    }
    match parser.parse_attribute_value() {
        Ok(Some(value)) => Ok(Some(value)),
        Ok(None) => Err((parser.span(), Error::ExpectedToken("attribute value"))),
        Err(e) => Err(e),
    }
}

impl GlobalSyntax {
    /// Reads the global that has to come next, behind its mnemonic.
    pub fn parse(parser: &mut Parser) -> (r: ParseResult<GlobalSyntax>)
        requires
            old(parser)@.wf(),
        ensures
            reads(
                r,
                old(parser)@,
                final(parser)@,
                global_at(old(parser)@.text, old(parser)@.pos),
                |g: GlobalSyntax| g@,
            ),
            final(parser)@.wf(),
    {
        let private = parser.parse_token("private");
        let is_external = parser.parse_token("external");
        let name = match parser.expect_symbol_name() {
            Ok(name) => name,
            Err(e) => {
                return Err(e);
            },
        };
        let size = match parse_keyed_number(parser, "size") {
            Ok(n) => n,
            Err(e) => {
                return Err(e);
            },
        };
        let align = match parse_keyed_number(parser, "align") {
            Ok(n) => n,
            Err(e) => {
                return Err(e);
            },
        };
        let section = match parse_section(parser) {
            Ok(s) => s,
            Err(e) => {
                return Err(e);
            },
        };
        let bytes = match parse_keyed_value(parser, "bytes") {
            Ok(v) => v,
            Err(e) => {
                return Err(e);
            },
        };
        match parse_keyed_value(parser, "relocations") {
            Ok(relocations) => Ok(
                GlobalSyntax {
                    private,
                    is_external,
                    name,
                    size,
                    align,
                    section,
                    bytes,
                    relocations,
                },
            ),
            Err(e) => Err(e),
        }
    }
}

} // verus!

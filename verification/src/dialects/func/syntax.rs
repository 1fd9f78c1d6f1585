//! The text of functions, calls and declarations.
use vstd::prelude::*;
use vstd::string::*;
use crate::attributes::AttrView;
use crate::attributes::AttributeValue;
use crate::error::Error;
use crate::error::ErrorView;
use crate::parse::attrs::keyed_at;
use crate::parse::attrs::optional_attr;
use crate::parse::lists::args_at;
use crate::parse::lists::arrow_type_at;
use crate::parse::lists::dep_names_at;
use crate::parse::lists::optional_tree;
use crate::parse::lists::parse_dep_names;
use crate::parse::reads;
use crate::parse::scope::spelled;
use crate::parse::text::number_at;
use crate::parse::text::past;
use crate::parse::text::region_at;
use crate::parse::text::symbol_name;
use crate::parse::text::token_at;
use crate::parse::text::value_ref;
use crate::parse::text::Parser;
use crate::parse::types::before;
use crate::parse::types::before_nothing;
use crate::parse::types::before_twice;
use crate::parse::types::params_at;
use crate::parse::types::trees_of;
use crate::parse::types::type_at;
use crate::parse::types::TypeSyntax;
use crate::parse::types::TypeTree;
use crate::parse::ParseResult;
use crate::parse::Parsed;
use crate::parse::Span;

verus! {

/// A parameter as it is written: its name and its type.
pub struct ParamSyntax {
    pub name: String,
    pub ty: TypeSyntax,
}

impl View for ParamSyntax {
    type V = (Seq<char>, TypeTree);

    open spec fn view(&self) -> (Seq<char>, TypeTree) {
        (self.name@, self.ty@)
    }
}

/// What a parameter that may be absent says.
pub open spec fn optional_param(p: Option<ParamSyntax>) -> Option<(Seq<char>, TypeTree)> {
    match p {
        Some(p) => Some(p@),
        None => None,
    }
}

/// What each of `list` says.
pub open spec fn param_trees(list: Seq<ParamSyntax>) -> Seq<(Seq<char>, TypeTree)> {
    list.map_values(|p: ParamSyntax| p@)
}

/// The parameters a bracket holds and whether any further arguments follow.
pub struct ParamsSyntax {
    pub params: Vec<ParamSyntax>,
    pub variadic: bool,
}

/// What a parameter bracket says.
pub ghost struct ParamsTree {
    pub params: Seq<(Seq<char>, TypeTree)>,
    pub variadic: bool,
}

impl View for ParamsSyntax {
    type V = ParamsTree;

    open spec fn view(&self) -> ParamsTree {
        ParamsTree { params: param_trees(self.params@), variadic: self.variadic }
    }
}

/// One entry of a parameter bracket: `...`, or a name and a type.
pub open spec fn param_at(text: Seq<char>, pos: int) -> Parsed<Option<(Seq<char>, TypeTree)>> {
    match token_at(text, pos, "..."@) {
        Some(p) => Ok((None, p)),
        None => match value_ref(text, pos) {
            Err(e) => Err(e),
            Ok((name, p)) => match token_at(text, p, ":"@) {
                None => Err((p, ErrorView::ExpectedToken(":"@))),
                Some(p) => match type_at(text, p) {
                    Err(e) => Err(e),
                    Ok((ty, p)) => Ok((Some((name, ty)), p)),
                },
            },
        },
    }
}

/// The entries that have to come next, separated by commas, up to the closing
/// bracket.
pub open spec fn entries_at(text: Seq<char>, pos: int) -> Parsed<
    Seq<Option<(Seq<char>, TypeTree)>>,
>
    decreases text.len() - pos,
{
    match param_at(text, pos) {
        Err(e) => Err(e),
        Ok((entry, p)) => match token_at(text, p, ")"@) {
            Some(p) => Ok((seq![entry], p)),
            None => match token_at(text, p, ","@) {
                None => Err((p, ErrorView::ExpectedToken(","@))),
                Some(p) => if !(pos < p <= text.len()) {
                    Err((p, ErrorView::ExpectedValueRef))
                } else {
                    before(seq![entry], entries_at(text, p))
                },
            },
        },
    }
}

/// The entries of a parameter bracket, which has to come next.
pub open spec fn bracket_at(text: Seq<char>, pos: int) -> Parsed<
    Seq<Option<(Seq<char>, TypeTree)>>,
> {
    match token_at(text, pos, "("@) {
        None => Err((pos, ErrorView::ExpectedToken("("@))),
        Some(p) => match token_at(text, p, ")"@) {
            Some(p) => Ok((Seq::empty(), p)),
            None => entries_at(text, p),
        },
    }
}

/// The named parameters among the first `n` entries.
pub open spec fn named(entries: Seq<Option<(Seq<char>, TypeTree)>>) -> Seq<(Seq<char>, TypeTree)>
    decreases entries.len(),
{
    if entries.len() == 0 {
        Seq::empty()
    } else {
        match entries.last() {
            Some(param) => named(entries.drop_last()).push(param),
            None => named(entries.drop_last()),
        }
    }
}

/// Whether some entry but the last stands for further arguments.
pub open spec fn early_marker(entries: Seq<Option<(Seq<char>, TypeTree)>>) -> bool {
    exists|i: int| 0 <= i < entries.len() - 1 && (#[trigger] entries[i]) is None
}

/// The parameters that have to come next. Only the last entry can stand for
/// further arguments.
pub open spec fn params_of_at(text: Seq<char>, pos: int) -> Parsed<ParamsTree> {
    match bracket_at(text, pos) {
        Err(e) => Err(e),
        Ok((entries, p)) => if early_marker(entries) {
            Err((p, ErrorView::ExpectedToken("final variadic marker"@)))
        } else {
            Ok(
                (
                    ParamsTree {
                        params: named(entries),
                        variadic: entries.len() > 0 && entries.last() is None,
                    },
                    p,
                ),
            )
        },
    }
}

/// What follows a signature: where the result goes, how many arguments the ABI
/// supplies, which of them is the stack pointer, and the lists over arguments.
pub struct ClauseSyntax {
    pub result_address: bool,
    pub implicit_arguments: Option<u64>,
    pub entry_sp: Option<String>,
    pub argument_alignments: Option<AttributeValue>,
    pub stack_arguments: Option<AttributeValue>,
    pub noalias: Option<AttributeValue>,
}

/// What the clauses behind a signature say.
pub ghost struct ClauseTree {
    pub result_address: bool,
    pub implicit_arguments: Option<nat>,
    pub entry_sp: Option<Seq<char>>,
    pub argument_alignments: Option<AttrView>,
    pub stack_arguments: Option<AttrView>,
    pub noalias: Option<AttrView>,
}

/// What a name that may be absent spells.
pub open spec fn optional_name(name: Option<String>) -> Option<Seq<char>> {
    match name {
        Some(name) => Some(name@),
        None => None,
    }
}

/// The count that may be absent.
pub open spec fn optional_count(count: Option<u64>) -> Option<nat> {
    match count {
        Some(count) => Some(count as nat),
        None => None,
    }
}

impl View for ClauseSyntax {
    type V = ClauseTree;

    open spec fn view(&self) -> ClauseTree {
        ClauseTree {
            result_address: self.result_address,
            implicit_arguments: optional_count(self.implicit_arguments),
            entry_sp: optional_name(self.entry_sp),
            argument_alignments: optional_attr(self.argument_alignments),
            stack_arguments: optional_attr(self.stack_arguments),
            noalias: optional_attr(self.noalias),
        }
    }
}

/// The count behind `implicit_arguments`, where that comes next.
pub open spec fn implicit_at(text: Seq<char>, pos: int) -> Parsed<Option<nat>> {
    match token_at(text, pos, "implicit_arguments"@) {
        None => Ok((None, pos)),
        Some(p) => match number_at(text, p) {
            None => Err((p, ErrorView::ExpectedToken("implicit argument count"@))),
            Some((n, p)) => if n < 0 {
                Err((p, ErrorView::ExpectedToken("nonnegative implicit argument count"@)))
            } else {
                Ok((Some(n as nat), p))
            },
        },
    }
}

/// The name behind `entry_sp`, where that comes next.
pub open spec fn entry_sp_at(text: Seq<char>, pos: int) -> Parsed<Option<Seq<char>>> {
    match token_at(text, pos, "entry_sp"@) {
        None => Ok((None, pos)),
        Some(p) => match value_ref(text, p) {
            Err(e) => Err(e),
            Ok((name, p)) => Ok((Some(name), p)),
        },
    }
}

/// The clauses that come next, each where it does, in a fixed order.
pub open spec fn clauses_at(text: Seq<char>, pos: int) -> Parsed<ClauseTree> {
    let result_address = token_at(text, pos, "result_address"@) is Some;
    match implicit_at(text, past(text, pos, "result_address"@)) {
        Err(e) => Err(e),
        Ok((implicit_arguments, p)) => match entry_sp_at(text, p) {
            Err(e) => Err(e),
            Ok((entry_sp, p)) => match keyed_at(
                text,
                p,
                "argument_alignments"@,
                "alignment list"@,
            ) {
                Err(e) => Err(e),
                Ok((argument_alignments, p)) => match keyed_at(
                    text,
                    p,
                    "stack_arguments"@,
                    "argument list"@,
                ) {
                    Err(e) => Err(e),
                    Ok((stack_arguments, p)) => match keyed_at(
                        text,
                        p,
                        "noalias"@,
                        "argument list"@,
                    ) {
                        Err(e) => Err(e),
                        Ok((noalias, p)) => Ok(
                            (
                                ClauseTree {
                                    result_address,
                                    implicit_arguments,
                                    entry_sp,
                                    argument_alignments,
                                    stack_arguments,
                                    noalias,
                                },
                                p,
                            ),
                        ),
                    },
                },
            },
        },
    }
}

/// A function as it is written. Its body is the stretch of text that holds it.
pub struct FuncSyntax {
    pub private: bool,
    pub name: String,
    pub params: ParamsSyntax,
    pub ret: Option<TypeSyntax>,
    pub clauses: ClauseSyntax,
    pub body: Span,
}

/// What a written function says.
pub ghost struct FuncTree {
    pub private: bool,
    pub name: Seq<char>,
    pub params: ParamsTree,
    pub ret: Option<TypeTree>,
    pub clauses: ClauseTree,
    pub body: (int, int),
}

impl View for FuncSyntax {
    type V = FuncTree;

    open spec fn view(&self) -> FuncTree {
        FuncTree {
            private: self.private,
            name: self.name@,
            params: self.params@,
            ret: optional_tree(self.ret),
            clauses: self.clauses@,
            body: (self.body.start as int, self.body.end as int),
        }
    }
}

/// The function that has to come next, behind its mnemonic.
pub open spec fn func_at(text: Seq<char>, pos: int) -> Parsed<FuncTree> {
    let private = token_at(text, pos, "private"@) is Some;
    match symbol_name(text, past(text, pos, "private"@)) {
        Err(e) => Err(e),
        Ok((name, p)) => match params_of_at(text, p) {
            Err(e) => Err(e),
            Ok((params, p)) => match arrow_type_at(text, p) {
                Err(e) => Err(e),
                Ok((ret, p)) => match clauses_at(text, p) {
                    Err(e) => Err(e),
                    Ok((clauses, p)) => match region_at(text, p) {
                        Err(e) => Err(e),
                        Ok((body, p)) => Ok(
                            (FuncTree { private, name, params, ret, clauses, body }, p),
                        ),
                    },
                },
            },
        },
    }
}

fn parse_param(parser: &mut Parser) -> (r: ParseResult<Option<ParamSyntax>>)
    requires
        old(parser)@.wf(),
    ensures
        reads(
            r,
            old(parser)@,
            final(parser)@,
            param_at(old(parser)@.text, old(parser)@.pos),
            |p: Option<ParamSyntax>| optional_param(p),
        ),
        final(parser)@.wf(),
        final(parser)@.pos >= old(parser)@.pos,
        r is Ok ==> final(parser)@.pos > old(parser)@.pos,
{
    proof {
        reveal_strlit("...");
    }
    if parser.parse_token("...") {
        return Ok(None);
    }
    let name = match parser.expect_value_ref() {
        Ok(name) => name,
        Err(e) => {
            return Err(e);
        },
    };
    if let Err(e) = parser.expect(":") {
        return Err(e);
    }
    match parser.parse_type() {
        Ok(ty) => Ok(Some(ParamSyntax { name, ty })),
        Err(e) => Err(e),
    }
}

/// Reads the parameters that have to come next.
pub fn parse_params_of(parser: &mut Parser) -> (r: ParseResult<ParamsSyntax>)
    requires
        old(parser)@.wf(),
    ensures
        reads(
            r,
            old(parser)@,
            final(parser)@,
            params_of_at(old(parser)@.text, old(parser)@.pos),
            |p: ParamsSyntax| p@,
        ),
        final(parser)@.wf(),
        final(parser)@.pos >= old(parser)@.pos,
{
    proof {
        reveal_strlit(",");
    }
    if let Err(e) = parser.expect("(") {
        return Err(e);
    }
    let mut params: Vec<ParamSyntax> = Vec::new();
    assert(param_trees(params@) =~= Seq::<(Seq<char>, TypeTree)>::empty());
    if parser.parse_token(")") {
        return Ok(ParamsSyntax { params, variadic: false });
    }
    let ghost start = parser@;
    let ghost mut entries: Seq<Option<(Seq<char>, TypeTree)>> = Seq::empty();
    let mut variadic = false;
    let mut early = false;
    proof {
        before_nothing(entries_at(start.text, start.pos));
    }
    loop
        invariant
            parser@.wf(),
            parser@.text == start.text,
            start.text == old(parser)@.text,
            parser@.pos >= start.pos >= old(parser)@.pos,
            bracket_at(old(parser)@.text, old(parser)@.pos) == entries_at(start.text, start.pos),
            ","@.len() == 1,
            before(entries, entries_at(parser@.text, parser@.pos)) == entries_at(
                start.text,
                start.pos,
            ),
            param_trees(params@) == named(entries),
            variadic == (entries.len() > 0 && entries.last() is None),
            early == early_marker(entries),
        decreases parser@.text.len() - parser@.pos,
    {
        let ghost so_far = entries;
        let entry = match parse_param(parser) {
            Ok(entry) => entry,
            Err(e) => {
                return Err(e);
            },
        };
        if variadic {
            early = true;
        }
        let ghost said = optional_param(entry);
        proof {
            entries = so_far.push(said);
            assert(entries.drop_last() =~= so_far);
            assert(entries =~= so_far + seq![said]);
            if early_marker(so_far) {
                let k = choose|k: int|
                    0 <= k < so_far.len() - 1 && (#[trigger] so_far[k]) is None;
                assert(entries[k] is None);
            }
            if so_far.len() > 0 && so_far.last() is None {
                assert(entries[so_far.len() - 1] is None);
            }
            if early_marker(entries) {
                let k = choose|k: int|
                    0 <= k < entries.len() - 1 && (#[trigger] entries[k]) is None;
                assert(so_far[k] is None);
            }
        }
        match entry {
            Some(p) => {
                let ghost list = param_trees(params@);
                let ghost view = p@;
                params.push(p);
                assert(param_trees(params@) =~= list.push(view));
                variadic = false;
            },
            None => {
                variadic = true;
            },
        }
        if parser.parse_token(")") {
            if early {
                return Err((parser.span(), Error::ExpectedToken("final variadic marker")));
            }
            return Ok(ParamsSyntax { params, variadic });
        }
        if let Err(e) = parser.expect(",") {
            return Err(e);
        }
        proof {
            before_twice(so_far, seq![said], entries_at(parser@.text, parser@.pos));
        }
    }
}

fn parse_implicit(parser: &mut Parser) -> (r: ParseResult<Option<u64>>)
    requires
        old(parser)@.wf(),
    ensures
        reads(
            r,
            old(parser)@,
            final(parser)@,
            implicit_at(old(parser)@.text, old(parser)@.pos),
            |c: Option<u64>| optional_count(c),
        ),
        final(parser)@.wf(),
        final(parser)@.pos >= old(parser)@.pos,
{
    if !parser.parse_token("implicit_arguments") {
        return Ok(None);
    }
    match parser.parse_number() {
        None => Err((parser.span(), Error::ExpectedToken("implicit argument count"))),
        Some(n) => if n < 0 {
            Err((parser.span(), Error::ExpectedToken("nonnegative implicit argument count")))
        } else {
            Ok(Some(n as u64))
        },
    }
}

fn parse_clauses(parser: &mut Parser) -> (r: ParseResult<ClauseSyntax>)
    requires
        old(parser)@.wf(),
    ensures
        reads(
            r,
            old(parser)@,
            final(parser)@,
            clauses_at(old(parser)@.text, old(parser)@.pos),
            |c: ClauseSyntax| c@,
        ),
        final(parser)@.wf(),
        final(parser)@.pos >= old(parser)@.pos,
{
    let result_address = parser.parse_token("result_address");
    let implicit_arguments = match parse_implicit(parser) {
        Ok(count) => count,
        Err(e) => {
            return Err(e);
        },
    };
    let entry_sp = if parser.parse_token("entry_sp") {
        match parser.expect_value_ref() {
            Ok(name) => Some(name),
            Err(e) => {
                return Err(e);
            },
        }
    } else {
        None
    };
    let argument_alignments = match parser.parse_keyed_array(
        "argument_alignments",
        "alignment list",
    ) {
        Ok(list) => list,
        Err(e) => {
            return Err(e);
        },
    };
    let stack_arguments = match parser.parse_keyed_array("stack_arguments", "argument list") {
        Ok(list) => list,
        Err(e) => {
            return Err(e);
        },
    };
    let noalias = match parser.parse_keyed_array("noalias", "argument list") {
        Ok(list) => list,
        Err(e) => {
            return Err(e);
        },
    };
    Ok(
        ClauseSyntax {
            result_address,
            implicit_arguments,
            entry_sp,
            argument_alignments,
            stack_arguments,
            noalias,
        },
    )
}

impl FuncSyntax {
    /// Reads the function that has to come next, behind its mnemonic.
    pub fn parse(parser: &mut Parser) -> (r: ParseResult<FuncSyntax>)
        requires
            old(parser)@.wf(),
        ensures
            reads(
                r,
                old(parser)@,
                final(parser)@,
                func_at(old(parser)@.text, old(parser)@.pos),
                |f: FuncSyntax| f@,
            ),
            final(parser)@.wf(),
            final(parser)@.pos >= old(parser)@.pos,
    {
        let private = parser.parse_token("private");
        let name = match parser.expect_symbol_name() {
            Ok(name) => name,
            Err(e) => {
                return Err(e);
            },
        };
        let params = match parse_params_of(parser) {
            Ok(params) => params,
            Err(e) => {
                return Err(e);
            },
        };
        let ret = match parser.parse_ret_type() {
            Ok(ret) => ret,
            Err(e) => {
                return Err(e);
            },
        };
        let clauses = match parse_clauses(parser) {
            Ok(clauses) => clauses,
            Err(e) => {
                return Err(e);
            },
        };
        match parser.parse_region() {
            Ok(body) => Ok(FuncSyntax { private, name, params, ret, clauses, body }),
            Err(e) => Err(e),
        }
    }
}

/// A call as it is written.
pub struct CallSyntax {
    pub callee: String,
    pub args: Vec<String>,
    pub arg_types: Vec<TypeSyntax>,
    pub ret: Option<TypeSyntax>,
    pub result_address: bool,
    pub symbol: Option<String>,
    pub argument_alignments: Option<AttributeValue>,
    pub deps: Vec<String>,
}

/// What a written call says.
pub ghost struct CallTree {
    pub callee: Seq<char>,
    pub args: Seq<Seq<char>>,
    pub arg_types: Seq<TypeTree>,
    pub ret: Option<TypeTree>,
    pub result_address: bool,
    pub symbol: Option<Seq<char>>,
    pub argument_alignments: Option<AttrView>,
    pub deps: Seq<Seq<char>>,
}

impl View for CallSyntax {
    type V = CallTree;

    open spec fn view(&self) -> CallTree {
        CallTree {
            callee: self.callee@,
            args: spelled(self.args@),
            arg_types: trees_of(self.arg_types@),
            ret: optional_tree(self.ret),
            result_address: self.result_address,
            symbol: optional_name(self.symbol),
            argument_alignments: optional_attr(self.argument_alignments),
            deps: spelled(self.deps@),
        }
    }
}

/// The symbol behind `callee`, where that comes next.
pub open spec fn callee_at(text: Seq<char>, pos: int) -> Parsed<Option<Seq<char>>> {
    match token_at(text, pos, "callee"@) {
        None => Ok((None, pos)),
        Some(p) => match symbol_name(text, p) {
            Err(e) => Err(e),
            Ok((name, p)) => Ok((Some(name), p)),
        },
    }
}

/// The call that has to come next, behind its mnemonic.
pub open spec fn call_at(text: Seq<char>, pos: int) -> Parsed<CallTree> {
    match value_ref(text, pos) {
        Err(e) => Err(e),
        Ok((callee, p)) => match args_at(text, p) {
            Err(e) => Err(e),
            Ok(((args, arg_types), p)) => match arrow_type_at(text, p) {
                Err(e) => Err(e),
                Ok((ret, p)) => {
                    let result_address = token_at(text, p, "result_address"@) is Some;
                    match callee_at(text, past(text, p, "result_address"@)) {
                        Err(e) => Err(e),
                        Ok((symbol, p)) => match keyed_at(
                            text,
                            p,
                            "argument_alignments"@,
                            "alignment list"@,
                        ) {
                            Err(e) => Err(e),
                            Ok((argument_alignments, p)) => match dep_names_at(text, p) {
                                Err(e) => Err(e),
                                Ok((deps, p)) => Ok(
                                    (
                                        CallTree {
                                            callee,
                                            args,
                                            arg_types,
                                            ret,
                                            result_address,
                                            symbol,
                                            argument_alignments,
                                            deps,
                                        },
                                        p,
                                    ),
                                ),
                            },
                        },
                    }
                },
            },
        },
    }
}

impl CallSyntax {
    /// Reads the call that has to come next, behind its mnemonic.
    pub fn parse(parser: &mut Parser) -> (r: ParseResult<CallSyntax>)
        requires
            old(parser)@.wf(),
        ensures
            reads(
                r,
                old(parser)@,
                final(parser)@,
                call_at(old(parser)@.text, old(parser)@.pos),
                |c: CallSyntax| c@,
            ),
            final(parser)@.wf(),
            final(parser)@.pos >= old(parser)@.pos,
    {
        let callee = match parser.expect_value_ref() {
            Ok(callee) => callee,
            Err(e) => {
                return Err(e);
            },
        };
        let (args, arg_types) = match parser.parse_arg_list() {
            Ok(list) => list,
            Err(e) => {
                return Err(e);
            },
        };
        let ret = match parser.parse_ret_type() {
            Ok(ret) => ret,
            Err(e) => {
                return Err(e);
            },
        };
        let result_address = parser.parse_token("result_address");
        let symbol = if parser.parse_token("callee") {
            match parser.expect_symbol_name() {
                Ok(name) => Some(name),
                Err(e) => {
                    return Err(e);
                },
            }
        } else {
            None
        };
        let argument_alignments = match parser.parse_keyed_array(
            "argument_alignments",
            "alignment list",
        ) {
            Ok(list) => list,
            Err(e) => {
                return Err(e);
            },
        };
        let deps = match parse_dep_names(parser) {
            Ok(deps) => deps,
            Err(e) => {
                return Err(e);
            },
        };
        Ok(
            CallSyntax {
                callee,
                args,
                arg_types,
                ret,
                result_address,
                symbol,
                argument_alignments,
                deps,
            },
        )
    }
}

/// A declaration as it is written.
pub struct DeclareSyntax {
    pub private: bool,
    pub name: String,
    pub params: Vec<TypeSyntax>,
    pub ret: TypeSyntax,
}

/// What a written declaration says.
pub ghost struct DeclareTree {
    pub private: bool,
    pub name: Seq<char>,
    pub params: Seq<TypeTree>,
    pub ret: TypeTree,
}

impl View for DeclareSyntax {
    type V = DeclareTree;

    open spec fn view(&self) -> DeclareTree {
        DeclareTree {
            private: self.private,
            name: self.name@,
            params: trees_of(self.params@),
            ret: self.ret@,
        }
    }
}

/// The name and the signature that have to come next: `@name(t1, t2) -> t`.
pub open spec fn signature_at(text: Seq<char>, pos: int) -> Parsed<
    (Seq<char>, Seq<TypeTree>, TypeTree),
> {
    match symbol_name(text, pos) {
        Err(e) => Err(e),
        Ok((name, p)) => match token_at(text, p, "("@) {
            None => Err((p, ErrorView::ExpectedToken("("@))),
            Some(p) => match params_at(text, p) {
                Err(e) => Err(e),
                Ok((params, p)) => match token_at(text, p, "->"@) {
                    None => Err((p, ErrorView::ExpectedToken("->"@))),
                    Some(p) => match type_at(text, p) {
                        Err(e) => Err(e),
                        Ok((ret, p)) => Ok(((name, params, ret), p)),
                    },
                },
            },
        },
    }
}

/// Reads the name and the signature that have to come next.
pub fn parse_signature(parser: &mut Parser) -> (r: ParseResult<
    (String, Vec<TypeSyntax>, TypeSyntax),
>)
    requires
        old(parser)@.wf(),
    ensures
        reads(
            r,
            old(parser)@,
            final(parser)@,
            signature_at(old(parser)@.text, old(parser)@.pos),
            |s: (String, Vec<TypeSyntax>, TypeSyntax)| (s.0@, trees_of(s.1@), s.2@),
        ),
        final(parser)@.wf(),
        final(parser)@.pos >= old(parser)@.pos,
{
    let name = match parser.expect_symbol_name() {
        Ok(name) => name,
        Err(e) => {
            return Err(e);
        },
    };
    if let Err(e) = parser.expect("(") {
        return Err(e);
    }
    let params = match parser.parse_params() {
        Ok(params) => params,
        Err(e) => {
            return Err(e);
        },
    };
    if let Err(e) = parser.expect("->") {
        return Err(e);
    }
    match parser.parse_type() {
        Ok(ret) => Ok((name, params, ret)),
        Err(e) => Err(e),
    }
}

/// The declaration that has to come next, behind its mnemonic.
pub open spec fn declare_at(text: Seq<char>, pos: int) -> Parsed<DeclareTree> {
    let private = token_at(text, pos, "private"@) is Some;
    match signature_at(text, past(text, pos, "private"@)) {
        Err(e) => Err(e),
        Ok(((name, params, ret), p)) => Ok((DeclareTree { private, name, params, ret }, p)),
    }
}

impl DeclareSyntax {
    /// Reads the declaration that has to come next, behind its mnemonic.
    pub fn parse(parser: &mut Parser) -> (r: ParseResult<DeclareSyntax>)
        requires
            old(parser)@.wf(),
        ensures
            reads(
                r,
                old(parser)@,
                final(parser)@,
                declare_at(old(parser)@.text, old(parser)@.pos),
                |d: DeclareSyntax| d@,
            ),
            final(parser)@.wf(),
            final(parser)@.pos >= old(parser)@.pos,
    {
        let private = parser.parse_token("private");
        match parse_signature(parser) {
            Ok((name, params, ret)) => Ok(DeclareSyntax { private, name, params, ret }),
            Err(e) => Err(e),
        }
    }
}

} // verus!

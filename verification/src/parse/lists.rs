//! Reading lists of names and of types.
use vstd::prelude::*;
use vstd::string::*;
use crate::error::ErrorView;
use crate::parse::reads;
use crate::parse::scope::all_bound;
use crate::parse::scope::spelled;
use crate::parse::scope::Scope;
use crate::ids::ValueId;
use crate::parse::text::peeked;
use crate::parse::text::token_at;
use crate::parse::text::value_ref;
use crate::parse::text::Parser;
use crate::parse::types::before;
use crate::parse::types::before_nothing;
use crate::parse::types::before_twice;
use crate::parse::types::trees_of;
use crate::parse::types::type_at;
use crate::parse::types::TypeSyntax;
use crate::parse::types::TypeTree;
use crate::parse::ParseResult;
use crate::parse::Parsed;

verus! {

/// The names behind `%` that have to come next, separated by commas.
pub open spec fn names_at(text: Seq<char>, pos: int) -> Parsed<Seq<Seq<char>>>
    decreases text.len() - pos,
{
    match value_ref(text, pos) {
        Err(e) => Err(e),
        Ok((name, p)) => match token_at(text, p, ","@) {
            None => Ok((seq![name], p)),
            Some(p) => if !(pos < p <= text.len()) {
                Err((p, ErrorView::ExpectedValueRef))
            } else {
                before(seq![name], names_at(text, p))
            },
        },
    }
}

/// The names behind `%` that come next, separated by commas, a comma behind the
/// last of them allowed.
pub open spec fn refs_at(text: Seq<char>, pos: int) -> Parsed<Seq<Seq<char>>>
    decreases text.len() - pos,
{
    if peeked(text, pos) != Some('%') {
        Ok((Seq::empty(), pos))
    } else {
        match value_ref(text, pos) {
            Err(e) => Err(e),
            Ok((name, p)) => match token_at(text, p, ","@) {
                None => Ok((seq![name], p)),
                Some(p) => if !(pos < p <= text.len()) {
                    Err((p, ErrorView::ExpectedValueRef))
                } else {
                    before(seq![name], refs_at(text, p))
                },
            },
        }
    }
}

/// The types that have to come next, separated by commas.
pub open spec fn type_run_at(text: Seq<char>, pos: int) -> Parsed<Seq<TypeTree>>
    decreases text.len() - pos,
{
    match type_at(text, pos) {
        Err(e) => Err(e),
        Ok((t, p)) => match token_at(text, p, ","@) {
            None => Ok((seq![t], p)),
            Some(p) => if !(pos < p <= text.len()) {
                Err((p, ErrorView::ExpectedType))
            } else {
                before(seq![t], type_run_at(text, p))
            },
        },
    }
}

/// The names and types of `(%a, %b : t1, t2)`, which has to come next.
pub open spec fn args_at(text: Seq<char>, pos: int) -> Parsed<(Seq<Seq<char>>, Seq<TypeTree>)> {
    match token_at(text, pos, "("@) {
        None => Err((pos, ErrorView::ExpectedToken("("@))),
        Some(p) => match token_at(text, p, ")"@) {
            Some(p) => Ok(((Seq::empty(), Seq::empty()), p)),
            None => typed_names_at(text, p),
        },
    }
}

/// The names and types of `%a, %b : t1, t2)`, which has to come next.
pub open spec fn typed_names_at(text: Seq<char>, pos: int) -> Parsed<
    (Seq<Seq<char>>, Seq<TypeTree>),
> {
    match names_at(text, pos) {
        Err(e) => Err(e),
        Ok((names, p)) => match token_at(text, p, ":"@) {
            None => Err((p, ErrorView::ExpectedToken(":"@))),
            Some(p) => match type_run_at(text, p) {
                Err(e) => Err(e),
                Ok((types, p)) => match token_at(text, p, ")"@) {
                    None => Err((p, ErrorView::ExpectedToken(")"@))),
                    Some(p) => Ok(((names, types), p)),
                },
            },
        },
    }
}

/// The type behind `->`, where one comes next.
pub open spec fn arrow_type_at(text: Seq<char>, pos: int) -> Parsed<Option<TypeTree>> {
    match token_at(text, pos, "->"@) {
        None => Ok((None, pos)),
        Some(p) => match type_at(text, p) {
            Err(e) => Err(e),
            Ok((t, p)) => Ok((Some(t), p)),
        },
    }
}

/// The names of `| %c, %d`, where it comes next.
pub open spec fn dep_names_at(text: Seq<char>, pos: int) -> Parsed<Seq<Seq<char>>> {
    match token_at(text, pos, "|"@) {
        None => Ok((Seq::empty(), pos)),
        Some(p) => names_at(text, p),
    }
}

/// What a type that may be absent says.
pub open spec fn optional_tree(t: Option<TypeSyntax>) -> Option<TypeTree> {
    match t {
        Some(t) => Some(t@),
        None => None,
    }
}

impl Parser {
    /// The names behind `%` that have to come next, separated by commas.
    pub fn parse_names(&mut self) -> (r: ParseResult<Vec<String>>)
        requires
            old(self)@.wf(),
        ensures
            reads(
                r,
                old(self)@,
                final(self)@,
                names_at(old(self)@.text, old(self)@.pos),
                |list: Vec<String>| spelled(list@),
            ),
            final(self)@.wf(),
            final(self)@.pos >= old(self)@.pos,
    {
        proof {
            reveal_strlit(",");
        }
        let ghost start = self@;
        let mut list: Vec<String> = Vec::new();
        assert(spelled(list@) =~= Seq::<Seq<char>>::empty());
        proof {
            before_nothing(names_at(start.text, start.pos));
        }
        loop
            invariant
                self@.wf(),
                self@.text == start.text,
                self@.pos >= start.pos,
                start == old(self)@,
                ","@.len() == 1,
                before(spelled(list@), names_at(self@.text, self@.pos)) == names_at(
                    start.text,
                    start.pos,
                ),
            decreases self@.text.len() - self@.pos,
        {
            let ghost so_far = spelled(list@);
            let name = match self.expect_value_ref() {
                Ok(name) => name,
                Err(e) => {
                    return Err(e);
                },
            };
            let ghost view = name@;
            list.push(name);
            assert(spelled(list@) =~= so_far + seq![view]);
            if !self.parse_token(",") {
                return Ok(list);
            }
            proof {
                before_twice(so_far, seq![view], names_at(self@.text, self@.pos));
            }
        }
    }

    /// The names behind `%` that come next, separated by commas.
    pub fn parse_refs(&mut self) -> (r: ParseResult<Vec<String>>)
        requires
            old(self)@.wf(),
        ensures
            reads(
                r,
                old(self)@,
                final(self)@,
                refs_at(old(self)@.text, old(self)@.pos),
                |list: Vec<String>| spelled(list@),
            ),
            final(self)@.wf(),
            final(self)@.pos >= old(self)@.pos,
    {
        proof {
            reveal_strlit(",");
        }
        let ghost start = self@;
        let mut list: Vec<String> = Vec::new();
        assert(spelled(list@) =~= Seq::<Seq<char>>::empty());
        proof {
            before_nothing(refs_at(start.text, start.pos));
        }
        while self.peek_char() == Some('%')
            invariant
                self@.wf(),
                self@.text == start.text,
                self@.pos >= start.pos,
                start == old(self)@,
                ","@.len() == 1,
                before(spelled(list@), refs_at(self@.text, self@.pos)) == refs_at(
                    start.text,
                    start.pos,
                ),
            decreases self@.text.len() - self@.pos,
        {
            let ghost so_far = spelled(list@);
            let name = match self.expect_value_ref() {
                Ok(name) => name,
                Err(e) => {
                    return Err(e);
                },
            };
            let ghost view = name@;
            list.push(name);
            assert(spelled(list@) =~= so_far + seq![view]);
            if !self.parse_token(",") {
                return Ok(list);
            }
            proof {
                before_twice(so_far, seq![view], refs_at(self@.text, self@.pos));
            }
        }
        assert(spelled(list@) + Seq::<Seq<char>>::empty() =~= spelled(list@));
        Ok(list)
    }

    /// The types that have to come next, separated by commas.
    pub fn parse_type_run(&mut self) -> (r: ParseResult<Vec<TypeSyntax>>)
        requires
            old(self)@.wf(),
        ensures
            reads(
                r,
                old(self)@,
                final(self)@,
                type_run_at(old(self)@.text, old(self)@.pos),
                |list: Vec<TypeSyntax>| trees_of(list@),
            ),
            final(self)@.wf(),
            final(self)@.pos >= old(self)@.pos,
    {
        proof {
            reveal_strlit(",");
        }
        let ghost start = self@;
        let mut list: Vec<TypeSyntax> = Vec::new();
        assert(trees_of(list@) =~= Seq::<TypeTree>::empty());
        proof {
            before_nothing(type_run_at(start.text, start.pos));
        }
        loop
            invariant
                self@.wf(),
                self@.text == start.text,
                self@.pos >= start.pos,
                start == old(self)@,
                ","@.len() == 1,
                before(trees_of(list@), type_run_at(self@.text, self@.pos)) == type_run_at(
                    start.text,
                    start.pos,
                ),
            decreases self@.text.len() - self@.pos,
        {
            let ghost so_far = trees_of(list@);
            let t = match self.parse_type() {
                Ok(t) => t,
                Err(e) => {
                    return Err(e);
                },
            };
            let ghost view = t@;
            list.push(t);
            assert(trees_of(list@) =~= so_far + seq![view]);
            if !self.parse_token(",") {
                return Ok(list);
            }
            proof {
                before_twice(so_far, seq![view], type_run_at(self@.text, self@.pos));
            }
        }
    }

    /// The names and types of `%a, %b : t1, t2)`, which has to come next.
    pub fn parse_typed_names(&mut self) -> (r: ParseResult<(Vec<String>, Vec<TypeSyntax>)>)
        requires
            old(self)@.wf(),
        ensures
            reads(
                r,
                old(self)@,
                final(self)@,
                typed_names_at(old(self)@.text, old(self)@.pos),
                |pair: (Vec<String>, Vec<TypeSyntax>)| (spelled(pair.0@), trees_of(pair.1@)),
            ),
            final(self)@.wf(),
            final(self)@.pos >= old(self)@.pos,
    {
        let names = match self.parse_names() {
            Ok(names) => names,
            Err(e) => {
                return Err(e);
            },
        };
        if let Err(e) = self.expect(":") {
            return Err(e);
        }
        let types = match self.parse_type_run() {
            Ok(types) => types,
            Err(e) => {
                return Err(e);
            },
        };
        if let Err(e) = self.expect(")") {
            return Err(e);
        }
        Ok((names, types))
    }

    /// The names and types of `(%a, %b : t1, t2)`, which has to come next.
    pub fn parse_arg_list(&mut self) -> (r: ParseResult<(Vec<String>, Vec<TypeSyntax>)>)
        requires
            old(self)@.wf(),
        ensures
            reads(
                r,
                old(self)@,
                final(self)@,
                args_at(old(self)@.text, old(self)@.pos),
                |pair: (Vec<String>, Vec<TypeSyntax>)| (spelled(pair.0@), trees_of(pair.1@)),
            ),
            final(self)@.wf(),
            final(self)@.pos >= old(self)@.pos,
    {
        if let Err(e) = self.expect("(") {
            return Err(e);
        }
        if self.parse_token(")") {
            let r: (Vec<String>, Vec<TypeSyntax>) = (Vec::new(), Vec::new());
            assert(spelled(r.0@) =~= Seq::<Seq<char>>::empty());
            assert(trees_of(r.1@) =~= Seq::<TypeTree>::empty());
            return Ok(r);
        }
        self.parse_typed_names()
    }

    /// The type behind `->`, where one comes next.
    pub fn parse_ret_type(&mut self) -> (r: ParseResult<Option<TypeSyntax>>)
        requires
            old(self)@.wf(),
        ensures
            reads(
                r,
                old(self)@,
                final(self)@,
                arrow_type_at(old(self)@.text, old(self)@.pos),
                |t: Option<TypeSyntax>| optional_tree(t),
            ),
            final(self)@.wf(),
            final(self)@.pos >= old(self)@.pos,
    {
        if !self.parse_token("->") {
            return Ok(None);
        }
        match self.parse_type() {
            Ok(t) => Ok(Some(t)),
            Err(e) => Err(e),
        }
    }
}

/// Reads an optional `| %c, %d` list and hands back the names. A `|` followed by
/// no name is an error: an empty partition is spelled by leaving the `|` out.
pub fn parse_dep_names(parser: &mut Parser) -> (r: ParseResult<Vec<String>>)
    requires
        old(parser)@.wf(),
    ensures
        reads(
            r,
            old(parser)@,
            final(parser)@,
            dep_names_at(old(parser)@.text, old(parser)@.pos),
            |list: Vec<String>| spelled(list@),
        ),
        final(parser)@.wf(),
        final(parser)@.pos >= old(parser)@.pos,
{
    if !parser.parse_token("|") {
        let r: Vec<String> = Vec::new();
        assert(spelled(r@) =~= Seq::<Seq<char>>::empty());
        return Ok(r);
    }
    parser.parse_names()
}

/// Reads an optional `| %c, %d` list and hands back the values its names stand
/// for. A name that stands for nothing is reported where the list ends.
pub fn parse_dep_operands(parser: &mut Parser, scope: &Scope) -> (r: ParseResult<Vec<ValueId>>)
    requires
        old(parser)@.wf(),
    ensures
        reads(
            r,
            old(parser)@,
            final(parser)@,
            match dep_names_at(old(parser)@.text, old(parser)@.pos) {
                Ok((names, end)) => match all_bound(scope@, names) {
                    Ok(values) => Ok((values, end)),
                    Err(name) => Err((end, ErrorView::UnknownValueRef(name))),
                },
                Err(e) => Err(e),
            },
            |list: Vec<ValueId>| list@,
        ),
        final(parser)@.wf(),
        final(parser)@.pos >= old(parser)@.pos,
{
    let names = match parse_dep_names(parser) {
        Ok(names) => names,
        Err(e) => {
            return Err(e);
        },
    };
    match scope.resolve_values(&names) {
        Ok(values) => Ok(values),
        Err(e) => Err((parser.span(), e)),
    }
}

} // verus!

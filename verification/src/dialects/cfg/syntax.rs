//! The text of branches: a label, the values handed over with their types, and
//! the memory states in a group of their own.
use vstd::prelude::*;
use vstd::string::*;
use crate::error::Error;
use crate::error::ErrorView;
use crate::parse::lists::names_at;
use crate::parse::reads;
use crate::parse::scope::spelled;
use crate::parse::text::past;
use crate::parse::text::peeked;
use crate::parse::text::sigil_at;
use crate::parse::text::token_at;
use crate::parse::text::value_ref;
use crate::parse::text::Parser;
use crate::parse::types::before;
use crate::parse::types::before_nothing;
use crate::parse::types::before_twice;
use crate::parse::types::trees_of;
use crate::parse::types::type_at;
use crate::parse::types::TypeSyntax;
use crate::parse::types::TypeTree;
use crate::parse::ParseResult;
use crate::parse::Parsed;

verus! {

/// Where a branch leads and what it hands over, as it is written.
pub struct SuccessorSyntax {
    pub label: String,
    pub values: Vec<String>,
    pub types: Vec<TypeSyntax>,
    pub states: Vec<String>,
}

/// What a written successor says.
pub ghost struct SuccessorTree {
    pub label: Seq<char>,
    pub values: Seq<Seq<char>>,
    pub types: Seq<TypeTree>,
    pub states: Seq<Seq<char>>,
}

impl View for SuccessorSyntax {
    type V = SuccessorTree;

    open spec fn view(&self) -> SuccessorTree {
        SuccessorTree {
            label: self.label@,
            values: spelled(self.values@),
            types: trees_of(self.types@),
            states: spelled(self.states@),
        }
    }
}

/// The types that have to come next, separated by commas. A comma with no type
/// behind it ends them and is left unread.
pub open spec fn type_group_at(text: Seq<char>, pos: int) -> Parsed<Seq<TypeTree>>
    decreases text.len() - pos,
{
    match type_at(text, pos) {
        Err(e) => Err(e),
        Ok((t, p)) => match token_at(text, p, ","@) {
            None => Ok((seq![t], p)),
            Some(q) => if peeked(text, q) != Some('!') {
                Ok((seq![t], p))
            } else if !(pos < q <= text.len()) {
                Err((q, ErrorView::ExpectedType))
            } else {
                before(seq![t], type_group_at(text, q))
            },
        },
    }
}

/// The names of `state(%a, %b)`, none where the group does not come next.
pub open spec fn states_at(text: Seq<char>, pos: int) -> Parsed<Seq<Seq<char>>> {
    match token_at(text, pos, "state"@) {
        None => Ok((Seq::empty(), pos)),
        Some(p) => match token_at(text, p, "("@) {
            None => Err((p, ErrorView::ExpectedToken("("@))),
            Some(p) => match names_at(text, p) {
                Err(e) => Err(e),
                Ok((names, p)) => match token_at(text, p, ")"@) {
                    None => Err((p, ErrorView::ExpectedToken(")"@))),
                    Some(p) => Ok((names, p)),
                },
            },
        },
    }
}

/// The values that come next and their types: none where no name does.
pub open spec fn values_at(text: Seq<char>, pos: int) -> Parsed<(Seq<Seq<char>>, Seq<TypeTree>)> {
    if peeked(text, pos) != Some('%') {
        Ok(((Seq::empty(), Seq::empty()), pos))
    } else {
        match names_at(text, pos) {
            Err(e) => Err(e),
            Ok((values, p)) => match token_at(text, p, ":"@) {
                None => Err((p, ErrorView::ExpectedToken(":"@))),
                Some(p) => match type_group_at(text, p) {
                    Err(e) => Err(e),
                    Ok((types, p)) => Ok(((values, types), p)),
                },
            },
        }
    }
}

/// The successor that has to come next.
pub open spec fn successor_at(text: Seq<char>, pos: int) -> Parsed<SuccessorTree> {
    match sigil_at(text, pos, '^') {
        None => Err((pos, ErrorView::ExpectedToken("^label"@))),
        Some((label, p)) => match token_at(text, p, "("@) {
            None => Ok(
                (
                    SuccessorTree {
                        label,
                        values: Seq::empty(),
                        types: Seq::empty(),
                        states: Seq::empty(),
                    },
                    p,
                ),
            ),
            Some(p) => match values_at(text, p) {
                Err(e) => Err(e),
                Ok(((values, types), p)) => match states_at(text, past(text, p, ","@)) {
                    Err(e) => Err(e),
                    Ok((states, p)) => match token_at(text, p, ")"@) {
                        None => Err((p, ErrorView::ExpectedToken(")"@))),
                        Some(p) => Ok((SuccessorTree { label, values, types, states }, p)),
                    },
                },
            },
        },
    }
}

fn parse_type_group(parser: &mut Parser) -> (r: ParseResult<Vec<TypeSyntax>>)
    requires
        old(parser)@.wf(),
    ensures
        reads(
            r,
            old(parser)@,
            final(parser)@,
            type_group_at(old(parser)@.text, old(parser)@.pos),
            |list: Vec<TypeSyntax>| trees_of(list@),
        ),
        final(parser)@.wf(),
        final(parser)@.pos >= old(parser)@.pos,
{
    proof {
        reveal_strlit(",");
    }
    let ghost start = parser@;
    let mut list: Vec<TypeSyntax> = Vec::new();
    assert(trees_of(list@) =~= Seq::<TypeTree>::empty());
    proof {
        before_nothing(type_group_at(start.text, start.pos));
    }
    loop
        invariant
            parser@.wf(),
            parser@.text == start.text,
            parser@.pos >= start.pos,
            start == old(parser)@,
            ","@.len() == 1,
            before(trees_of(list@), type_group_at(parser@.text, parser@.pos)) == type_group_at(
                start.text,
                start.pos,
            ),
        decreases parser@.text.len() - parser@.pos,
    {
        let ghost so_far = trees_of(list@);
        let t = match parser.parse_type() {
            Ok(t) => t,
            Err(e) => {
                return Err(e);
            },
        };
        let ghost view = t@;
        list.push(t);
        assert(trees_of(list@) =~= so_far + seq![view]);
        let mark: usize = parser.pos();
        if !parser.parse_token(",") {
            return Ok(list);
        }
        if parser.peek_char() != Some('!') {
            parser.set_pos(mark);
            return Ok(list);
        }
        proof {
            before_twice(so_far, seq![view], type_group_at(parser@.text, parser@.pos));
        }
    }
}

fn parse_states(parser: &mut Parser) -> (r: ParseResult<Vec<String>>)
    requires
        old(parser)@.wf(),
    ensures
        reads(
            r,
            old(parser)@,
            final(parser)@,
            states_at(old(parser)@.text, old(parser)@.pos),
            |list: Vec<String>| spelled(list@),
        ),
        final(parser)@.wf(),
        final(parser)@.pos >= old(parser)@.pos,
{
    if !parser.parse_token("state") {
        let r: Vec<String> = Vec::new();
        assert(spelled(r@) =~= Seq::<Seq<char>>::empty());
        return Ok(r);
    }
    if let Err(e) = parser.expect("(") {
        return Err(e);
    }
    let names = match parser.parse_names() {
        Ok(names) => names,
        Err(e) => {
            return Err(e);
        },
    };
    if let Err(e) = parser.expect(")") {
        return Err(e);
    }
    Ok(names)
}

/// Reads the successor that has to come next.
pub fn parse_successor(parser: &mut Parser) -> (r: ParseResult<SuccessorSyntax>)
    requires
        old(parser)@.wf(),
    ensures
        reads(
            r,
            old(parser)@,
            final(parser)@,
            successor_at(old(parser)@.text, old(parser)@.pos),
            |s: SuccessorSyntax| s@,
        ),
        final(parser)@.wf(),
        final(parser)@.pos >= old(parser)@.pos,
{
    let label = match parser.parse_block_label() {
        Some(label) => label,
        None => {
            return Err((parser.span(), Error::ExpectedToken("^label")));
        },
    };
    let mut values: Vec<String> = Vec::new();
    let mut types: Vec<TypeSyntax> = Vec::new();
    assert(spelled(values@) =~= Seq::<Seq<char>>::empty());
    assert(trees_of(types@) =~= Seq::<TypeTree>::empty());
    if !parser.parse_token("(") {
        let states: Vec<String> = Vec::new();
        assert(spelled(states@) =~= Seq::<Seq<char>>::empty());
        return Ok(SuccessorSyntax { label, values, types, states });
    }
    if parser.peek_char() == Some('%') {
        values =
        match parser.parse_names() {
            Ok(names) => names,
            Err(e) => {
                return Err(e);
            },
        };
        if let Err(e) = parser.expect(":") {
            return Err(e);
        }
        types =
        match parse_type_group(parser) {
            Ok(types) => types,
            Err(e) => {
                return Err(e);
            },
        };
    }
    let _comma = parser.parse_token(",");
    let states = match parse_states(parser) {
        Ok(states) => states,
        Err(e) => {
            return Err(e);
        },
    };
    if let Err(e) = parser.expect(")") {
        return Err(e);
    }
    Ok(SuccessorSyntax { label, values, types, states })
}

/// A conditional branch as it is written.
pub struct CondBranchSyntax {
    pub condition: String,
    pub true_dest: SuccessorSyntax,
    pub false_dest: SuccessorSyntax,
}

/// What a written conditional branch says.
pub ghost struct CondBranchTree {
    pub condition: Seq<char>,
    pub true_dest: SuccessorTree,
    pub false_dest: SuccessorTree,
}

impl View for CondBranchSyntax {
    type V = CondBranchTree;

    open spec fn view(&self) -> CondBranchTree {
        CondBranchTree {
            condition: self.condition@,
            true_dest: self.true_dest@,
            false_dest: self.false_dest@,
        }
    }
}

/// The conditional branch that has to come next, behind its mnemonic.
pub open spec fn cond_br_at(text: Seq<char>, pos: int) -> Parsed<CondBranchTree> {
    match value_ref(text, pos) {
        Err(e) => Err(e),
        Ok((condition, p)) => match token_at(text, p, ","@) {
            None => Err((p, ErrorView::ExpectedToken(","@))),
            Some(p) => match successor_at(text, p) {
                Err(e) => Err(e),
                Ok((true_dest, p)) => match token_at(text, p, ","@) {
                    None => Err((p, ErrorView::ExpectedToken(","@))),
                    Some(p) => match successor_at(text, p) {
                        Err(e) => Err(e),
                        Ok((false_dest, p)) => Ok(
                            (CondBranchTree { condition, true_dest, false_dest }, p),
                        ),
                    },
                },
            },
        },
    }
}

impl CondBranchSyntax {
    /// Reads the conditional branch that has to come next, behind its mnemonic.
    pub fn parse(parser: &mut Parser) -> (r: ParseResult<CondBranchSyntax>)
        requires
            old(parser)@.wf(),
        ensures
            reads(
                r,
                old(parser)@,
                final(parser)@,
                cond_br_at(old(parser)@.text, old(parser)@.pos),
                |c: CondBranchSyntax| c@,
            ),
            final(parser)@.wf(),
    {
        let condition = match parser.expect_value_ref() {
            Ok(condition) => condition,
            Err(e) => {
                return Err(e);
            },
        };
        if let Err(e) = parser.expect(",") {
            return Err(e);
        }
        let true_dest = match parse_successor(parser) {
            Ok(dest) => dest,
            Err(e) => {
                return Err(e);
            },
        };
        if let Err(e) = parser.expect(",") {
            return Err(e);
        }
        match parse_successor(parser) {
            Ok(false_dest) => Ok(CondBranchSyntax { condition, true_dest, false_dest }),
            Err(e) => Err(e),
        }
    }
}

} // verus!

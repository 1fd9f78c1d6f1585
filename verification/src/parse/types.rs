//! Reading types.
use vstd::prelude::*;
use vstd::string::*;
use crate::context::edits::first_position;
use crate::context::Context;
use crate::context::ContextView;
use crate::error::Error;
use crate::error::ErrorView;
use crate::ids::TypeId;
use crate::parse::reads;
use crate::parse::text::is_digit;
use crate::parse::text::number_at;
use crate::parse::text::number_of;
use crate::parse::text::past;
use crate::parse::text::sigil_at;
use crate::parse::text::token_at;
use crate::parse::text::word_at;
use crate::parse::text::Parser;
use crate::parse::ParseResult;
use crate::parse::Parsed;
use crate::text::same;
use crate::ty::interned;
use crate::ty::FloatType;
use crate::ty::FnType;
use crate::ty::IndexType;
use crate::ty::IntegerType;
use crate::ty::PtrType;
use crate::ty::StateType;
use crate::ty::TokenType;
use crate::ty::TupleType;
use crate::ty::Type;
use crate::ty::TypeView;
use crate::ty::UnitType;
use crate::ty::VarArgsType;
use crate::ty::VectorType;

verus! {

/// A type as it is written.
#[derive(Debug)]
pub enum TypeSyntax {
    State,
    Index,
    Unit,
    VarArgs,
    Token,
    Integer(u32),
    Float(u32, u32),
    Fn(Vec<TypeSyntax>, Box<TypeSyntax>),
    Tuple(Vec<TypeSyntax>),
    Ptr(Option<Box<TypeSyntax>>),
    Vector(Box<TypeSyntax>, Option<u32>),
}

/// What a written type says.
pub ghost enum TypeTree {
    State,
    Index,
    Unit,
    VarArgs,
    Token,
    Integer(u32),
    Float(u32, u32),
    Fn(Seq<TypeTree>, Box<TypeTree>),
    Tuple(Seq<TypeTree>),
    Ptr(Option<Box<TypeTree>>),
    Vector(Box<TypeTree>, Option<u32>),
}

/// What `syntax` says.
pub open spec fn tree_of(syntax: TypeSyntax) -> TypeTree
    decreases syntax,
{
    match syntax {
        TypeSyntax::State => TypeTree::State,
        TypeSyntax::Index => TypeTree::Index,
        TypeSyntax::Unit => TypeTree::Unit,
        TypeSyntax::VarArgs => TypeTree::VarArgs,
        TypeSyntax::Token => TypeTree::Token,
        TypeSyntax::Integer(width) => TypeTree::Integer(width),
        TypeSyntax::Float(exponent, mantissa) => TypeTree::Float(exponent, mantissa),
        TypeSyntax::Fn(params, ret) => TypeTree::Fn(
            Seq::new(
                params.len() as nat,
                |i: int|
                    if 0 <= i < params.len() {
                        tree_of(params[i])
                    } else {
                        arbitrary()
                    },
            ),
            Box::new(tree_of(*ret)),
        ),
        TypeSyntax::Tuple(elements) => TypeTree::Tuple(
            Seq::new(
                elements.len() as nat,
                |i: int|
                    if 0 <= i < elements.len() {
                        tree_of(elements[i])
                    } else {
                        arbitrary()
                    },
            ),
        ),
        TypeSyntax::Ptr(None) => TypeTree::Ptr(None),
        TypeSyntax::Ptr(Some(pointee)) => TypeTree::Ptr(Some(Box::new(tree_of(*pointee)))),
        TypeSyntax::Vector(element, length) => TypeTree::Vector(
            Box::new(tree_of(*element)),
            length,
        ),
    }
}

impl View for TypeSyntax {
    type V = TypeTree;

    open spec fn view(&self) -> TypeTree {
        tree_of(*self)
    }
}

/// What each of `list` says.
pub open spec fn trees_of(list: Seq<TypeSyntax>) -> Seq<TypeTree> {
    list.map_values(|t: TypeSyntax| tree_of(t))
}

/// The type a mnemonic names on its own.
pub open spec fn simple(mnemonic: Seq<char>) -> Option<TypeTree> {
    if mnemonic == "state"@ {
        Some(TypeTree::State)
    } else if mnemonic == "index"@ {
        Some(TypeTree::Index)
    } else if mnemonic == "unit"@ {
        Some(TypeTree::Unit)
    } else if mnemonic == "varargs"@ {
        Some(TypeTree::VarArgs)
    } else if mnemonic == "token"@ {
        Some(TypeTree::Token)
    } else if mnemonic == "f16"@ {
        Some(TypeTree::Float(5, 10))
    } else if mnemonic == "f32"@ {
        Some(TypeTree::Float(8, 23))
    } else if mnemonic == "f64"@ {
        Some(TypeTree::Float(11, 52))
    } else if names_integer(mnemonic) && number_of(mnemonic.skip(1)) <= u32::MAX {
        Some(TypeTree::Integer(number_of(mnemonic.skip(1)) as u32))
    } else {
        None
    }
}

/// Whether a mnemonic is an `i` and a number.
pub open spec fn names_integer(mnemonic: Seq<char>) -> bool {
    mnemonic.len() > 1 && mnemonic[0] == 'i' && forall|k: int|
        1 <= k < mnemonic.len() ==> is_digit(#[trigger] mnemonic[k])
}

/// The dialect and the mnemonic behind `!`, where they come next, and where they
/// end.
pub open spec fn head_at(text: Seq<char>, pos: int) -> Option<(Seq<char>, Seq<char>, int)> {
    match sigil_at(text, pos, '!') {
        Some((name, end)) => match sigil_at(text, end, '.') {
            Some((mnemonic, last)) => Some((name, mnemonic, last)),
            None => Some(("builtin"@, name, end)),
        },
        None => None,
    }
}

/// The type that has to come next.
pub open spec fn type_at(text: Seq<char>, pos: int) -> Parsed<TypeTree>
    decreases text.len() - pos, 0nat,
{
    match head_at(text, pos) {
        None => Err((pos, ErrorView::ExpectedType)),
        Some((dialect, mnemonic, p)) => if !(pos < p <= text.len()) {
            Err((p, ErrorView::ExpectedType))
        } else if dialect == "builtin"@ && mnemonic == "fn"@ {
            match token_at(text, p, "<"@) {
                None => Err((p, ErrorView::ExpectedToken("<"@))),
                Some(p) => match token_at(text, p, "("@) {
                    None => Err((p, ErrorView::ExpectedToken("("@))),
                    Some(p) => if !(pos < p <= text.len()) {
                        Err((p, ErrorView::ExpectedType))
                    } else {
                        match params_at(text, p) {
                            Err(e) => Err(e),
                            Ok((params, p)) => match token_at(text, p, "->"@) {
                                None => Err((p, ErrorView::ExpectedToken("->"@))),
                                Some(p) => if !(pos < p <= text.len()) {
                                    Err((p, ErrorView::ExpectedType))
                                } else {
                                    match type_at(text, p) {
                                        Err(e) => Err(e),
                                        Ok((ret, p)) => match token_at(text, p, ">"@) {
                                            None => Err((p, ErrorView::ExpectedToken(">"@))),
                                            Some(p) => Ok((TypeTree::Fn(params, Box::new(ret)), p)),
                                        },
                                    }
                                },
                            },
                        }
                    },
                },
            }
        } else if dialect == "builtin"@ && mnemonic == "tuple"@ {
            match token_at(text, p, "<"@) {
                None => Err((p, ErrorView::ExpectedToken("<"@))),
                Some(p) => match token_at(text, p, ">"@) {
                    Some(p) => Ok((TypeTree::Tuple(Seq::empty()), p)),
                    None => if !(pos < p <= text.len()) {
                        Err((p, ErrorView::ExpectedType))
                    } else {
                        match types_at(text, p, ">"@) {
                            Err(e) => Err(e),
                            Ok((elements, p)) => Ok((TypeTree::Tuple(elements), p)),
                        }
                    },
                },
            }
        } else if dialect == "ptr"@ && mnemonic == "p"@ {
            match token_at(text, p, "<"@) {
                None => Ok((TypeTree::Ptr(None), p)),
                Some(p) => if !(pos < p <= text.len()) {
                    Err((p, ErrorView::ExpectedType))
                } else {
                    match type_at(text, p) {
                        Err(e) => Err(e),
                        Ok((pointee, p)) => match token_at(text, p, ">"@) {
                            None => Err((p, ErrorView::ExpectedToken(">"@))),
                            Some(p) => Ok((TypeTree::Ptr(Some(Box::new(pointee))), p)),
                        },
                    }
                },
            }
        } else if dialect == "vector"@ && mnemonic == "vec"@ {
            vector_at(text, p)
        } else if dialect == "builtin"@ && simple(mnemonic) is Some {
            Ok((simple(mnemonic)->0, p))
        } else if dialect == "builtin"@ && names_integer(mnemonic) {
            Err((p, ErrorView::ExpectedType))
        } else {
            Err((p, ErrorView::UnknownType(dialect, mnemonic)))
        },
    }
}

/// The parameter types that have to come next, up to the closing bracket.
pub open spec fn params_at(text: Seq<char>, pos: int) -> Parsed<Seq<TypeTree>>
    decreases text.len() - pos, 2nat,
{
    match token_at(text, pos, ")"@) {
        Some(p) => Ok((Seq::empty(), p)),
        None => types_at(text, pos, ")"@),
    }
}

/// The types that have to come next, separated by commas, up to `close`.
pub open spec fn types_at(text: Seq<char>, pos: int, close: Seq<char>) -> Parsed<Seq<TypeTree>>
    decreases text.len() - pos, 1nat,
{
    match type_at(text, pos) {
        Err(e) => Err(e),
        Ok((t, p)) => match token_at(text, p, close) {
            Some(p) => Ok((seq![t], p)),
            None => match token_at(text, p, ","@) {
                None => Err((p, ErrorView::ExpectedToken(","@))),
                Some(p) => if !(pos < p <= text.len()) {
                    Err((p, ErrorView::ExpectedType))
                } else {
                    before(seq![t], types_at(text, p, close))
                },
            },
        },
    }
}

/// `head` ahead of a list that was read.
pub open spec fn before<T>(head: Seq<T>, rest: Parsed<Seq<T>>) -> Parsed<Seq<T>> {
    match rest {
        Ok((list, end)) => Ok((head + list, end)),
        Err(e) => Err(e),
    }
}

/// What a vector type says between its angle brackets: a lane count and `x`,
/// where it is fixed, and the mnemonic of the element.
pub open spec fn vector_at(text: Seq<char>, pos: int) -> Parsed<TypeTree> {
    match token_at(text, pos, "<"@) {
        None => Err((pos, ErrorView::ExpectedToken("<"@))),
        Some(p) => match number_at(text, p) {
            None => element_at(text, p, None),
            Some((n, p)) => if n < 0 || token_at(text, p, "x"@) is None {
                Err((p, ErrorView::ExpectedToken("x"@)))
            } else {
                element_at(text, past(text, p, "x"@), Some((n % 0x1_0000_0000) as u32))
            },
        },
    }
}

/// The element of a vector type and what closes it.
pub open spec fn element_at(text: Seq<char>, pos: int, length: Option<u32>) -> Parsed<TypeTree> {
    match word_at(text, pos) {
        None => Err((pos, ErrorView::ExpectedType)),
        Some((name, p)) => match simple(name) {
            None => Err((p, if names_integer(name) {
                ErrorView::ExpectedType
            } else {
                ErrorView::UnknownType("builtin"@, name)
            })),
            Some(element) => match token_at(text, p, ">"@) {
                None => Err((p, ErrorView::ExpectedToken(">"@))),
                Some(p) => Ok((TypeTree::Vector(Box::new(element), length), p)),
            },
        },
    }
}

fn integer_width(mnemonic: &str) -> (r: Option<Option<u32>>)
    ensures
        match r {
            None => !names_integer(mnemonic@),
            Some(width) => names_integer(mnemonic@) && width == if number_of(mnemonic@.skip(1))
                <= u32::MAX {
                Some(number_of(mnemonic@.skip(1)) as u32)
            } else {
                None
            },
        },
{
    let n: usize = mnemonic.unicode_len();
    if n <= 1 || mnemonic.get_char(0) != 'i' {
        return None;
    }
    let ghost digits = mnemonic@.skip(1);
    let mut width: u64 = 0;
    let mut over = false;
    let mut i: usize = 1;
    assert(digits.take(0) =~= Seq::<char>::empty());
    while i < n
        invariant
            1 <= i <= n,
            n == mnemonic@.len(),
            n > 1,
            digits == mnemonic@.skip(1),
            forall|k: int| 1 <= k < i ==> is_digit(#[trigger] mnemonic@[k]),
            !over ==> width == number_of(digits.take(i - 1)) && width <= u32::MAX,
            over ==> number_of(digits.take(i - 1)) > u32::MAX,
        decreases n - i,
    {
        let c: char = mnemonic.get_char(i);
        if !('0' <= c && c <= '9') {
            assert(!is_digit(mnemonic@[i as int]));
            return None;
        }
        assert(digits.take(i as int).drop_last() =~= digits.take(i - 1));
        assert(digits.take(i as int).last() == c);
        let d: u32 = c as u32 - 48;
        if !over {
            width = width * 10 + d as u64;
            if width > u32::MAX as u64 {
                over = true;
            }
        }
        i += 1;
    }
    assert(digits.take(n - 1) =~= digits);
    if over {
        Some(None)
    } else {
        Some(Some(width as u32))
    }
}

fn simple_type(mnemonic: &str) -> (r: Option<TypeSyntax>)
    ensures
        match simple(mnemonic@) {
            Some(t) => r is Some && r->0@ == t,
            None => r is None,
        },
{
    if same(mnemonic, "state") {
        Some(TypeSyntax::State)
    } else if same(mnemonic, "index") {
        Some(TypeSyntax::Index)
    } else if same(mnemonic, "unit") {
        Some(TypeSyntax::Unit)
    } else if same(mnemonic, "varargs") {
        Some(TypeSyntax::VarArgs)
    } else if same(mnemonic, "token") {
        Some(TypeSyntax::Token)
    } else if same(mnemonic, "f16") {
        Some(TypeSyntax::Float(5, 10))
    } else if same(mnemonic, "f32") {
        Some(TypeSyntax::Float(8, 23))
    } else if same(mnemonic, "f64") {
        Some(TypeSyntax::Float(11, 52))
    } else {
        match integer_width(mnemonic) {
            Some(Some(width)) => Some(TypeSyntax::Integer(width)),
            _ => None,
        }
    }
}

fn unknown(dialect: &str, mnemonic: &str) -> (e: Error)
    ensures
        e@ == if dialect@ == "builtin"@ && names_integer(mnemonic@) {
            ErrorView::ExpectedType
        } else {
            ErrorView::UnknownType(dialect@, mnemonic@)
        },
{
    if same(dialect, "builtin") && integer_width(mnemonic).is_some() {
        Error::ExpectedType
    } else {
        Error::UnknownType(dialect.to_owned(), mnemonic.to_owned())
    }
}

proof fn tokens_are_short()
    ensures
        "<"@.len() == 1,
        ">"@.len() == 1,
        "("@.len() == 1,
        ")"@.len() == 1,
        ","@.len() == 1,
        "->"@.len() == 2,
        "x"@.len() == 1,
{
    reveal_strlit("<");
    reveal_strlit(">");
    reveal_strlit("(");
    reveal_strlit(")");
    reveal_strlit(",");
    reveal_strlit("->");
    reveal_strlit("x");
}

impl Parser {
    /// The name behind `.` that comes next, as the mnemonic of a type in another
    /// dialect is written.
    fn parse_head(&mut self) -> (r: Option<(String, String)>)
        requires
            old(self)@.wf(),
        ensures
            match head_at(old(self)@.text, old(self)@.pos) {
                Some((dialect, mnemonic, end)) => r is Some && r.unwrap().0@ == dialect && r.unwrap().1@
                    == mnemonic && final(self)@ == old(self)@.at(end) && end > old(self)@.pos,
                None => r is None && final(self)@ == old(self)@,
            },
            final(self)@.wf(),
    {
        match self.parse_type_name() {
            None => None,
            Some(name) => match self.parse_dotted() {
                Some(mnemonic) => Some((name, mnemonic)),
                None => Some(("builtin".to_owned(), name)),
            },
        }
    }

    /// The type that has to come next.
    pub fn parse_type(&mut self) -> (r: ParseResult<TypeSyntax>)
        requires
            old(self)@.wf(),
        ensures
            reads(
                r,
                old(self)@,
                final(self)@,
                type_at(old(self)@.text, old(self)@.pos),
                |t: TypeSyntax| t@,
            ),
            final(self)@.wf(),
            final(self)@.pos >= old(self)@.pos,
            r is Ok ==> final(self)@.pos > old(self)@.pos,
        decreases old(self)@.text.len() - old(self)@.pos, 0nat,
    {
        proof {
            tokens_are_short();
        }
        let (dialect, mnemonic) = match self.parse_head() {
            Some(head) => head,
            None => {
                return Err((self.span(), Error::ExpectedType));
            },
        };
        let builtin = same(dialect.as_str(), "builtin");
        if builtin && same(mnemonic.as_str(), "fn") {
            if let Err(e) = self.expect("<") {
                return Err(e);
            }
            if let Err(e) = self.expect("(") {
                return Err(e);
            }
            let params = match self.parse_params() {
                Ok(params) => params,
                Err(e) => {
                    return Err(e);
                },
            };
            if let Err(e) = self.expect("->") {
                return Err(e);
            }
            let ret = match self.parse_type() {
                Ok(ret) => ret,
                Err(e) => {
                    return Err(e);
                },
            };
            if let Err(e) = self.expect(">") {
                return Err(e);
            }
            let ghost list = trees_of(params@);
            let t = TypeSyntax::Fn(params, Box::new(ret));
            assert(t@->Fn_0 =~= list);
            Ok(t)
        } else if builtin && same(mnemonic.as_str(), "tuple") {
            if let Err(e) = self.expect("<") {
                return Err(e);
            }
            if self.parse_token(">") {
                let t = TypeSyntax::Tuple(Vec::new());
                assert(t@->Tuple_0 =~= Seq::<TypeTree>::empty());
                return Ok(t);
            }
            match self.parse_types(">") {
                Ok(elements) => {
                    let ghost list = trees_of(elements@);
                    let t = TypeSyntax::Tuple(elements);
                    assert(t@->Tuple_0 =~= list);
                    Ok(t)
                },
                Err(e) => Err(e),
            }
        } else if same(dialect.as_str(), "ptr") && same(mnemonic.as_str(), "p") {
            if !self.parse_token("<") {
                return Ok(TypeSyntax::Ptr(None));
            }
            let pointee = match self.parse_type() {
                Ok(pointee) => pointee,
                Err(e) => {
                    return Err(e);
                },
            };
            if let Err(e) = self.expect(">") {
                return Err(e);
            }
            Ok(TypeSyntax::Ptr(Some(Box::new(pointee))))
        } else if same(dialect.as_str(), "vector") && same(mnemonic.as_str(), "vec") {
            self.parse_vector()
        } else {
            if builtin {
                if let Some(t) = simple_type(mnemonic.as_str()) {
                    return Ok(t);
                }
            }
            Err((self.span(), unknown(dialect.as_str(), mnemonic.as_str())))
        }
    }

    /// The parameter types that have to come next, up to the closing bracket.
    pub fn parse_params(&mut self) -> (r: ParseResult<Vec<TypeSyntax>>)
        requires
            old(self)@.wf(),
        ensures
            reads(
                r,
                old(self)@,
                final(self)@,
                params_at(old(self)@.text, old(self)@.pos),
                |list: Vec<TypeSyntax>| trees_of(list@),
            ),
            final(self)@.wf(),
            final(self)@.pos >= old(self)@.pos,
        decreases old(self)@.text.len() - old(self)@.pos, 2nat,
    {
        if self.parse_token(")") {
            let r: Vec<TypeSyntax> = Vec::new();
            assert(trees_of(r@) =~= Seq::<TypeTree>::empty());
            return Ok(r);
        }
        self.parse_types(")")
    }

    /// The types that have to come next, separated by commas, up to `close`.
    pub fn parse_types(&mut self, close: &'static str) -> (r: ParseResult<Vec<TypeSyntax>>)
        requires
            old(self)@.wf(),
        ensures
            reads(
                r,
                old(self)@,
                final(self)@,
                types_at(old(self)@.text, old(self)@.pos, close@),
                |list: Vec<TypeSyntax>| trees_of(list@),
            ),
            final(self)@.wf(),
            final(self)@.pos >= old(self)@.pos,
        decreases old(self)@.text.len() - old(self)@.pos, 1nat,
    {
        proof {
            tokens_are_short();
        }
        let ghost start = self@;
        let mut list: Vec<TypeSyntax> = Vec::new();
        assert(trees_of(list@) =~= Seq::<TypeTree>::empty());
        proof {
            before_nothing(types_at(start.text, start.pos, close@));
        }
        loop
            invariant
                self@.wf(),
                self@.text == start.text,
                self@.pos >= start.pos,
                start == old(self)@,
                ","@.len() == 1,
                before(trees_of(list@), types_at(self@.text, self@.pos, close@)) == types_at(
                    start.text,
                    start.pos,
                    close@,
                ),
            decreases self@.text.len() - self@.pos,
        {
            let ghost here = self@.pos;
            let ghost so_far = trees_of(list@);
            let t = match self.parse_type() {
                Ok(t) => t,
                Err(e) => {
                    return Err(e);
                },
            };
            let ghost tree = t@;
            list.push(t);
            assert(trees_of(list@) =~= so_far + seq![tree]);
            if self.parse_token(close) {
                return Ok(list);
            }
            if let Err(e) = self.expect(",") {
                return Err(e);
            }
            proof {
                before_twice(so_far, seq![tree], types_at(self@.text, self@.pos, close@));
            }
        }
    }

    fn parse_vector(&mut self) -> (r: ParseResult<TypeSyntax>)
        requires
            old(self)@.wf(),
        ensures
            reads(
                r,
                old(self)@,
                final(self)@,
                vector_at(old(self)@.text, old(self)@.pos),
                |t: TypeSyntax| t@,
            ),
            final(self)@.wf(),
            final(self)@.pos >= old(self)@.pos,
    {
        if let Err(e) = self.expect("<") {
            return Err(e);
        }
        let length: Option<u32> = match self.parse_number() {
            None => None,
            Some(n) => {
                if n < 0 {
                    return Err((self.span(), Error::ExpectedToken("x")));
                }
                if let Err(e) = self.expect("x") {
                    return Err(e);
                }
                Some((n % 0x1_0000_0000) as u32)
            },
        };
        let name = match self.parse_ident() {
            Some(name) => name,
            None => {
                return Err((self.span(), Error::ExpectedType));
            },
        };
        let element = match simple_type(name.as_str()) {
            Some(element) => element,
            None => {
                return Err((self.span(), unknown("builtin", name.as_str())));
            },
        };
        if let Err(e) = self.expect(">") {
            return Err(e);
        }
        Ok(TypeSyntax::Vector(Box::new(element), length))
    }
}

/// Nothing ahead of a list leaves it as it is.
pub proof fn before_nothing<T>(rest: Parsed<Seq<T>>)
    ensures
        before(Seq::empty(), rest) == rest,
{
    if let Ok((list, end)) = rest {
        assert(Seq::<T>::empty() + list =~= list);
    }
}

/// Two lists ahead of a third come in order.
pub proof fn before_twice<T>(a: Seq<T>, b: Seq<T>, rest: Parsed<Seq<T>>)
    ensures
        before(a, before(b, rest)) == before(a + b, rest),
{
    if let Ok((list, end)) = rest {
        assert(a + (b + list) =~= (a + b) + list);
    }
}

/// The table after `ty` was interned, and its id.
pub open spec fn put(types: Seq<TypeView>, ty: TypeView) -> (Seq<TypeView>, TypeId) {
    (interned(types, ty), TypeId(first_position(interned(types, ty), ty)->0 as u32))
}

/// The table after a written type was interned, the types it is made from first,
/// and its id.
pub open spec fn interned_tree(types: Seq<TypeView>, tree: TypeTree) -> (Seq<TypeView>, TypeId)
    decreases tree, 0nat,
{
    match tree {
        TypeTree::State => put(types, TypeView::State),
        TypeTree::Index => put(types, TypeView::Index),
        TypeTree::Unit => put(types, TypeView::Unit),
        TypeTree::VarArgs => put(types, TypeView::VarArgs),
        TypeTree::Token => put(types, TypeView::Token),
        TypeTree::Integer(width) => put(types, TypeView::Integer(width)),
        TypeTree::Float(exponent, mantissa) => put(types, TypeView::Float(exponent, mantissa)),
        TypeTree::Fn(params, ret) => {
            let (types, ids) = interned_trees(types, params, params.len());
            let (types, id) = interned_tree(types, *ret);
            put(types, TypeView::Fn(ids, id))
        },
        TypeTree::Tuple(elements) => {
            let (types, ids) = interned_trees(types, elements, elements.len());
            put(types, TypeView::Tuple(ids))
        },
        TypeTree::Ptr(None) => put(types, TypeView::Ptr(None)),
        TypeTree::Ptr(Some(pointee)) => {
            let (types, id) = interned_tree(types, *pointee);
            put(types, TypeView::Ptr(Some(id)))
        },
        TypeTree::Vector(element, length) => {
            let (types, id) = interned_tree(types, *element);
            put(types, TypeView::Vector(id, length))
        },
    }
}

/// The table after the first `n` of `list` were interned in order, and their ids.
pub open spec fn interned_trees(types: Seq<TypeView>, list: Seq<TypeTree>, n: nat) -> (
    Seq<TypeView>,
    Seq<TypeId>,
)
    decreases list, n,
{
    if n == 0 || n > list.len() {
        (types, Seq::empty())
    } else {
        let (types, ids) = interned_trees(types, list, (n - 1) as nat);
        let (types, id) = interned_tree(types, list[n - 1]);
        (types, ids.push(id))
    }
}

/// How many types a written type is made from, itself counted.
pub open spec fn weight(tree: TypeTree) -> nat
    decreases tree, 0nat,
{
    match tree {
        TypeTree::Fn(params, ret) => 1 + weights(params, params.len()) + weight(*ret),
        TypeTree::Tuple(elements) => 1 + weights(elements, elements.len()),
        TypeTree::Ptr(Some(pointee)) => 1 + weight(*pointee),
        TypeTree::Vector(element, _) => 1 + weight(*element),
        _ => 1,
    }
}

/// How many types the first `n` of `list` are made from.
pub open spec fn weights(list: Seq<TypeTree>, n: nat) -> nat
    decreases list, n,
{
    if n == 0 || n > list.len() {
        0
    } else {
        weights(list, (n - 1) as nat) + weight(list[n - 1])
    }
}

proof fn weights_grow(list: Seq<TypeTree>, n: nat)
    requires
        n <= list.len(),
    ensures
        weights(list, n) <= weights(list, list.len()),
    decreases list.len() - n,
{
    if n < list.len() {
        weights_grow(list, n + 1);
    }
}

impl TypeSyntax {
    /// Interns the type, the types it is made from first.
    pub fn intern(&self, context: &mut Context) -> (id: TypeId)
        requires
            old(context).inv(),
            old(context)@.types.len() + weight(self@) <= u32::MAX,
        ensures
            final(context).inv(),
            final(context)@ == (ContextView {
                types: interned_tree(old(context)@.types, self@).0,
                ..old(context)@
            }),
            id == interned_tree(old(context)@.types, self@).1,
            id.0 < final(context)@.types.len(),
            final(context)@.types.len() <= old(context)@.types.len() + weight(self@),
            old(context)@.types.len() <= final(context)@.types.len(),
            forall|i: int|
                0 <= i < old(context)@.types.len() ==> #[trigger] final(context)@.types[i]
                    == old(context)@.types[i],
        decreases self, 0nat,
    {
        match self {
            TypeSyntax::State => context.get_type_id(Type::State(StateType)),
            TypeSyntax::Index => context.get_type_id(Type::Index(IndexType)),
            TypeSyntax::Unit => context.get_type_id(Type::Unit(UnitType)),
            TypeSyntax::VarArgs => context.get_type_id(Type::VarArgs(VarArgsType)),
            TypeSyntax::Token => context.get_type_id(Type::Token(TokenType)),
            TypeSyntax::Integer(width) => context.get_type_id(
                Type::Integer(IntegerType { width: *width }),
            ),
            TypeSyntax::Float(exponent, mantissa) => context.get_type_id(
                Type::Float(FloatType { exponent: *exponent, mantissa: *mantissa }),
            ),
            TypeSyntax::Fn(params, ret) => {
                assert(decreases_to!(*self => self->Fn_0));
                assert(self@->Fn_0 =~= trees_of(params@));
                let ids = intern_types(params, context);
                let id = ret.intern(context);
                context.get_type_id(Type::Fn(FnType { params: ids, ret: id }))
            },
            TypeSyntax::Tuple(elements) => {
                assert(decreases_to!(*self => self->Tuple_0));
                assert(self@->Tuple_0 =~= trees_of(elements@));
                let ids = intern_types(elements, context);
                context.get_type_id(Type::Tuple(TupleType { elements: ids }))
            },
            TypeSyntax::Ptr(None) => context.get_type_id(Type::Ptr(PtrType { pointee: None })),
            TypeSyntax::Ptr(Some(pointee)) => {
                let id = pointee.intern(context);
                context.get_type_id(Type::Ptr(PtrType { pointee: Some(id) }))
            },
            TypeSyntax::Vector(element, length) => {
                let id = element.intern(context);
                context.get_type_id(Type::Vector(VectorType { element: id, length: *length }))
            },
        }
    }
}

/// Interns each of `list` in order.
pub fn intern_types(list: &Vec<TypeSyntax>, context: &mut Context) -> (ids: Vec<TypeId>)
    requires
        old(context).inv(),
        old(context)@.types.len() + weights(trees_of(list@), list@.len()) <= u32::MAX,
    ensures
        final(context).inv(),
        final(context)@ == (ContextView {
            types: interned_trees(old(context)@.types, trees_of(list@), list@.len()).0,
            ..old(context)@
        }),
        ids@ == interned_trees(old(context)@.types, trees_of(list@), list@.len()).1,
        ids@.len() == list@.len(),
        final(context)@.types_known(ids@),
        final(context)@.types.len() <= old(context)@.types.len() + weights(
            trees_of(list@),
            list@.len(),
        ),
        old(context)@.types.len() <= final(context)@.types.len(),
        forall|i: int|
            0 <= i < old(context)@.types.len() ==> #[trigger] final(context)@.types[i] == old(
                context,
            )@.types[i],
    decreases list, 1nat,
{
    let ghost before = context@;
    let ghost trees = trees_of(list@);
    let mut ids: Vec<TypeId> = Vec::new();
    let mut i: usize = 0;
    while i < list.len()
        invariant
            i <= list.len(),
            context.inv(),
            trees == trees_of(list@),
            ids.len() == i,
            before.types.len() + weights(trees, trees.len()) <= u32::MAX,
            context@ == (ContextView {
                types: interned_trees(before.types, trees, i as nat).0,
                ..before
            }),
            ids@ == interned_trees(before.types, trees, i as nat).1,
            context@.types_known(ids@),
            context@.types.len() <= before.types.len() + weights(trees, i as nat),
            before.types.len() <= context@.types.len(),
            forall|k: int|
                0 <= k < before.types.len() ==> #[trigger] context@.types[k] == before.types[k],
        decreases list.len() - i,
    {
        proof {
            weights_grow(trees, (i + 1) as nat);
        }
        assert(trees[i as int] == list@[i as int]@);
        assert(decreases_to!(*list => list[i as int]));
        let ghost so_far = context@.types;
        let id = list[i].intern(context);
        ids.push(id);
        i += 1;
    }
    ids
}

} // verus!

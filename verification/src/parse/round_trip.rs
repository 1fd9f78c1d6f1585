//! That what is printed is read back.
use vstd::prelude::*;
use vstd::string::*;
use crate::context::edits::first_position_at;
use crate::ids::TypeId;
use crate::parse::text::decimal_is_read_back;
use crate::parse::text::digits_end;
use crate::parse::text::is_digit;
use crate::parse::text::is_name;
use crate::dialects::builtin::float::is_space;
use crate::parse::text::name_end;
use crate::parse::text::number_at;
use crate::parse::text::peeked;
use crate::parse::text::sigil_at;
use crate::parse::text::skipped;
use crate::parse::text::token_at;
use crate::parse::text::word_at;
use crate::parse::types::head_at;
use crate::parse::types::interned_tree;
use crate::parse::types::interned_trees;
use crate::parse::types::names_integer;
use crate::parse::types::params_at;
use crate::parse::types::put;
use crate::parse::types::simple;
use crate::parse::types::type_at;
use crate::parse::types::types_at;
use crate::parse::types::TypeTree;
use crate::text::decimal;
use crate::ty::table_wf;
use crate::ty::type_body;
use crate::ty::type_list;
use crate::ty::type_text;
use crate::ty::TypeView;

verus! {

/// Whether `text` spells `s` at `pos`.
pub open spec fn spells_at(text: Seq<char>, pos: int, s: Seq<char>) -> bool {
    0 <= pos && pos + s.len() <= text.len() && text.subrange(pos, pos + s.len()) == s
}

/// Whether what stands at `p` cannot go on with a type that ends there.
pub open spec fn type_ends(text: Seq<char>, p: int) -> bool {
    &&& 0 <= p <= text.len()
    &&& p == text.len() || !is_name(text[p])
    &&& peeked(text, p) != Some('.')
    &&& peeked(text, p) != Some('<')
}

/// Whether a type is one that a mnemonic spells alone: every scalar but for the
/// floating-point formats that have no name of their own.
pub open spec fn plain(ty: TypeView) -> bool {
    match ty {
        TypeView::State | TypeView::Index | TypeView::Unit | TypeView::VarArgs | TypeView::Token => true,
        TypeView::Integer(_) => true,
        TypeView::Float(exponent, mantissa) => (exponent, mantissa) == (5u32, 10u32) || (
            exponent,
            mantissa,
        ) == (8u32, 23u32) || (exponent, mantissa) == (11u32, 52u32),
        _ => false,
    }
}

/// Whether the text has a form for a type: all but register classes, which their
/// targets read, floating-point formats without a name, and vectors of anything
/// but plain types.
pub open spec fn spellable(types: Seq<TypeView>, id: TypeId) -> bool
    decreases id.0,
{
    &&& id.0 < types.len()
    &&& match types[id.0 as int] {
        TypeView::Fn(params, ret) => {
            &&& ret.0 < id.0 && spellable(types, ret)
            &&& forall|i: int|
                0 <= i < params.len() ==> (#[trigger] params[i]).0 < id.0 && spellable(
                    types,
                    params[i],
                )
        },
        TypeView::Tuple(elements) => forall|i: int|
            0 <= i < elements.len() ==> (#[trigger] elements[i]).0 < id.0 && spellable(
                types,
                elements[i],
            ),
        TypeView::Ptr(Some(pointee)) => pointee.0 < id.0 && spellable(types, pointee),
        TypeView::Ptr(None) => true,
        TypeView::Vector(element, _) => element.0 < id.0 && plain(types[element.0 as int]),
        ty => plain(ty),
    }
}

/// A plain type as it is written.
pub open spec fn plain_tree(ty: TypeView) -> TypeTree {
    match ty {
        TypeView::State => TypeTree::State,
        TypeView::Index => TypeTree::Index,
        TypeView::Unit => TypeTree::Unit,
        TypeView::VarArgs => TypeTree::VarArgs,
        TypeView::Integer(width) => TypeTree::Integer(width),
        TypeView::Float(exponent, mantissa) => TypeTree::Float(exponent, mantissa),
        _ => TypeTree::Token,
    }
}

/// A type as it is written.
pub open spec fn written(types: Seq<TypeView>, id: TypeId) -> TypeTree
    decreases id.0,
{
    match types[id.0 as int] {
        TypeView::Fn(params, ret) => TypeTree::Fn(
            Seq::new(
                params.len(),
                |i: int|
                    if 0 <= i < params.len() && params[i].0 < id.0 {
                        written(types, params[i])
                    } else {
                        arbitrary()
                    },
            ),
            Box::new(
                if ret.0 < id.0 {
                    written(types, ret)
                } else {
                    arbitrary()
                },
            ),
        ),
        TypeView::Tuple(elements) => TypeTree::Tuple(
            Seq::new(
                elements.len(),
                |i: int|
                    if 0 <= i < elements.len() && elements[i].0 < id.0 {
                        written(types, elements[i])
                    } else {
                        arbitrary()
                    },
            ),
        ),
        TypeView::Ptr(Some(pointee)) => TypeTree::Ptr(
            Some(
                Box::new(
                    if pointee.0 < id.0 {
                        written(types, pointee)
                    } else {
                        arbitrary()
                    },
                ),
            ),
        ),
        TypeView::Ptr(None) => TypeTree::Ptr(None),
        TypeView::Vector(element, length) => TypeTree::Vector(
            Box::new(plain_tree(types[element.0 as int])),
            length,
        ),
        ty => plain_tree(ty),
    }
}

pub proof fn spelling_splits(text: Seq<char>, pos: int, a: Seq<char>, b: Seq<char>)
    requires
        spells_at(text, pos, a + b),
    ensures
        spells_at(text, pos, a),
        spells_at(text, pos + a.len(), b),
{
    let whole = a + b;
    let here = text.subrange(pos, pos + whole.len());
    assert(text.subrange(pos, pos + a.len()) =~= a) by {
        assert forall|i: int| 0 <= i < a.len() implies text[pos + i] == a[i] by {
            assert(here[i] == whole[i]);
        }
    }
    assert(text.subrange(pos + a.len(), pos + a.len() + b.len()) =~= b) by {
        assert forall|i: int| 0 <= i < b.len() implies text[pos + a.len() + i] == b[i] by {
            assert(here[a.len() + i] == whole[a.len() + i]);
        }
    }
}

pub proof fn spelled_char(text: Seq<char>, pos: int, s: Seq<char>, i: int)
    requires
        spells_at(text, pos, s),
        0 <= i < s.len(),
    ensures
        text[pos + i] == s[i],
{
    assert(text.subrange(pos, pos + s.len())[i] == s[i]);
}

/// Whether `s` is a name.
pub open spec fn is_word(s: Seq<char>) -> bool {
    s.len() > 0 && forall|i: int| 0 <= i < s.len() ==> is_name(#[trigger] s[i])
}

pub proof fn word_is_read(text: Seq<char>, pos: int, s: Seq<char>)
    requires
        spells_at(text, pos, s),
        is_word(s),
        pos + s.len() == text.len() || !is_name(text[pos + s.len()]),
    ensures
        name_end(text, pos) == pos + s.len(),
        skipped(text, pos) == pos,
        word_at(text, pos) == Some((s, pos + s.len())),
{
    spelled_char(text, pos, s, 0);
    run_is_read(text, pos, s, 0);
}

proof fn run_is_read(text: Seq<char>, pos: int, s: Seq<char>, i: int)
    requires
        spells_at(text, pos, s),
        is_word(s),
        pos + s.len() == text.len() || !is_name(text[pos + s.len()]),
        0 <= i <= s.len(),
    ensures
        name_end(text, pos + i) == pos + s.len(),
    decreases s.len() - i,
{
    if i < s.len() {
        spelled_char(text, pos, s, i);
        run_is_read(text, pos, s, i + 1);
    }
}

pub proof fn token_is_read(text: Seq<char>, p: int, token: Seq<char>)
    requires
        spells_at(text, p, token),
        token.len() > 0,
        !is_space(token[0]),
    ensures
        skipped(text, p) == p,
        peeked(text, p) == Some(token[0]),
        token_at(text, p, token) == Some(p + token.len()),
{
    spelled_char(text, p, token, 0);
}

pub proof fn other_token(text: Seq<char>, p: int, c: char, token: Seq<char>)
    requires
        0 <= p < text.len(),
        text[p] == c,
        !is_space(c),
        token.len() > 0,
        token[0] != c,
    ensures
        token_at(text, p, token) is None,
        peeked(text, p) == Some(c),
{
    if p + token.len() <= text.len() {
        assert(text.subrange(p, p + token.len())[0] == c);
    }
}

proof fn head_is_read(text: Seq<char>, pos: int, mnemonic: Seq<char>)
    requires
        spells_at(text, pos, "!"@ + mnemonic),
        is_word(mnemonic),
        pos + 1 + mnemonic.len() == text.len() || !is_name(text[pos + 1 + mnemonic.len()]),
        peeked(text, pos + 1 + mnemonic.len()) != Some('.'),
    ensures
        head_at(text, pos) == Some(("builtin"@, mnemonic, pos + 1 + mnemonic.len())),
        skipped(text, pos) == pos,
{
    reveal_strlit("!");
    spelling_splits(text, pos, "!"@, mnemonic);
    spelled_char(text, pos, "!"@, 0);
    word_is_read(text, pos + 1, mnemonic);
    let end = pos + 1 + mnemonic.len();
    assert(sigil_at(text, pos, '!') == Some((mnemonic, end)));
    assert(sigil_at(text, end, '.') is None);
}

proof fn dialect_head_is_read(
    text: Seq<char>,
    pos: int,
    dialect: Seq<char>,
    mnemonic: Seq<char>,
)
    requires
        spells_at(text, pos, "!"@ + (dialect + "."@) + mnemonic),
        is_word(dialect),
        is_word(mnemonic),
        ({
            let end = pos + 2 + dialect.len() + mnemonic.len();
            end == text.len() || !is_name(text[end])
        }),
    ensures
        head_at(text, pos) == Some(
            (dialect, mnemonic, pos + 2 + dialect.len() + mnemonic.len()),
        ),
        skipped(text, pos) == pos,
{
    reveal_strlit("!");
    reveal_strlit(".");
    spelling_splits(text, pos, "!"@ + (dialect + "."@), mnemonic);
    spelling_splits(text, pos, "!"@, dialect + "."@);
    spelling_splits(text, pos + 1, dialect, "."@);
    spelled_char(text, pos, "!"@, 0);
    spelled_char(text, pos + 1 + dialect.len(), "."@, 0);
    word_is_read(text, pos + 1, dialect);
    word_is_read(text, pos + 2 + dialect.len(), mnemonic);
    let dot = pos + 1 + dialect.len();
    assert(sigil_at(text, pos, '!') == Some((dialect, dot)));
    assert(skipped(text, dot) == dot);
    assert(sigil_at(text, dot, '.') == Some((mnemonic, dot + 1 + mnemonic.len())));
}

/// What a plain type is called is a name, read as the type.
proof fn plain_is_named(types: Seq<TypeView>, id: TypeId)
    requires
        id.0 < types.len(),
        plain(types[id.0 as int]),
    ensures
        is_word(type_body(types, id)),
        simple(type_body(types, id)) == Some(plain_tree(types[id.0 as int])),
        type_body(types, id) != "fn"@,
        type_body(types, id) != "tuple"@,
        !is_digit(type_body(types, id)[0]),
        types[id.0 as int].home() == "builtin"@,
{
    reveal_strlit("state");
    reveal_strlit("index");
    reveal_strlit("unit");
    reveal_strlit("varargs");
    reveal_strlit("token");
    reveal_strlit("f16");
    reveal_strlit("f32");
    reveal_strlit("f64");
    reveal_strlit("fn");
    reveal_strlit("tuple");
    reveal_strlit("i");
    reveal_strlit("f");
    let body = type_body(types, id);
    match types[id.0 as int] {
        TypeView::Integer(width) => {
            decimal_is_read_back(width as nat);
            let digits = decimal(width as nat);
            assert(body.skip(1) =~= digits);
            assert forall|k: int| 1 <= k < body.len() implies is_digit(#[trigger] body[k]) by {
                assert(body[k] == digits[k - 1]);
            }
            assert forall|k: int| 0 <= k < body.len() implies is_name(#[trigger] body[k]) by {
                if k > 0 {
                    assert(is_digit(body[k]));
                }
            }
            assert(body[0] == 'i');
            assert(is_digit(body[1]));
            assert(names_integer(body));
            assert(body != "state"@ && body != "unit"@ && body != "varargs"@ && body != "token"@) by {
                assert("state"@[0] == 's' && "unit"@[0] == 'u' && "varargs"@[0] == 'v'
                    && "token"@[0] == 't');
            }
            assert(body != "index"@) by {
                assert("index"@[1] == 'n');
            }
            assert(body != "f16"@ && body != "f32"@ && body != "f64"@ && body != "fn"@ && body
                != "tuple"@) by {
                assert("f16"@[0] == 'f' && "f32"@[0] == 'f' && "f64"@[0] == 'f' && "fn"@[0] == 'f'
                    && "tuple"@[0] == 't');
            }
        },
        TypeView::Float(exponent, mantissa) => {
            assert(decimal(1) =~= seq!['1']);
            assert(decimal(3) =~= seq!['3']);
            assert(decimal(6) =~= seq!['6']);
            assert(decimal(16) =~= seq!['1', '6']);
            assert(decimal(32) =~= seq!['3', '2']);
            assert(decimal(64) =~= seq!['6', '4']);
            if exponent == 5 {
                assert(body =~= "f16"@);
            } else if exponent == 8 {
                assert(body =~= "f32"@);
            } else {
                assert(body =~= "f64"@);
            }
            assert("state"@[0] == 's' && "unit"@[0] == 'u' && "varargs"@[0] == 'v' && "token"@[0]
                == 't' && "index"@[0] == 'i');
            assert(body.len() == 3);
            assert("f16"@[1] != "f32"@[1] && "f32"@[1] != "f64"@[1] && "f16"@[1] != "f64"@[1]);
        },
        _ => {
            assert("state"@[0] == 's' && "unit"@[0] == 'u' && "varargs"@[0] == 'v' && "token"@[0]
                == 't' && "index"@[0] == 'i' && "tuple"@[0] == 't');
            assert("token"@[1] == 'o' && "tuple"@[1] == 'u');
            assert("f16"@[0] == 'f' && "f32"@[0] == 'f' && "f64"@[0] == 'f' && "fn"@[0] == 'f');
        },
    }
}

proof fn dialects_differ()
    ensures
        "builtin"@ != "ptr"@,
        "builtin"@ != "vector"@,
        "ptr"@ != "vector"@,
{
    reveal_strlit("builtin");
    reveal_strlit("ptr");
    reveal_strlit("vector");
    assert("builtin"@.len() == 7 && "ptr"@.len() == 3 && "vector"@.len() == 6);
}

pub proof fn skipping_goes_on(text: Seq<char>, pos: int)
    requires
        0 <= pos <= text.len(),
    ensures
        pos <= skipped(text, pos) <= text.len(),
    decreases text.len() - pos,
{
    if pos < text.len() && is_space(text[pos]) {
        skipping_goes_on(text, pos + 1);
    }
}

pub proof fn space_before_type(text: Seq<char>, pos: int)
    requires
        0 <= pos < text.len(),
        is_space(text[pos]),
        type_at(text, pos + 1) is Ok,
    ensures
        type_at(text, pos) == type_at(text, pos + 1),
{
    assert(skipped(text, pos) == skipped(text, pos + 1));
    assert(head_at(text, pos) == head_at(text, pos + 1));
}

/// The types of `list` from `i` on, separated by commas.
spec fn tail_text(types: Seq<TypeView>, list: Seq<TypeId>, i: int) -> Seq<char>
    decreases list.len() - i,
{
    if i < 0 || i >= list.len() {
        Seq::empty()
    } else {
        type_text(types, list[i]) + if i + 1 < list.len() {
            ", "@ + tail_text(types, list, i + 1)
        } else {
            Seq::empty()
        }
    }
}

proof fn list_is_tail(types: Seq<TypeView>, owner: TypeId, list: Seq<TypeId>, k: nat)
    requires
        1 <= k <= list.len(),
        forall|i: int| 0 <= i < list.len() ==> (#[trigger] list[i]).0 < owner.0,
    ensures
        type_list(types, owner, list, list.len()) == type_list(types, owner, list, k) + if k
            < list.len() {
            ", "@ + tail_text(types, list, k as int)
        } else {
            Seq::empty()
        },
    decreases list.len() - k,
{
    if k < list.len() {
        list_is_tail(types, owner, list, k + 1);
        assert(list[k as int].0 < owner.0);
        let rest = if k + 1 < list.len() {
            ", "@ + tail_text(types, list, (k + 1) as int)
        } else {
            Seq::<char>::empty()
        };
        assert(type_list(types, owner, list, k + 1) == type_list(types, owner, list, k) + ", "@
            + type_text(types, list[k as int]));
        assert(type_list(types, owner, list, k + 1) + rest =~= type_list(types, owner, list, k) + (
        ", "@ + tail_text(types, list, k as int)));
    } else {
        assert(type_list(types, owner, list, k) + Seq::<char>::empty() =~= type_list(
            types,
            owner,
            list,
            k,
        ));
    }
}

/// Each of `list` as it is written.
spec fn written_all(types: Seq<TypeView>, list: Seq<TypeId>) -> Seq<TypeTree> {
    Seq::new(list.len(), |i: int| written(types, list[i]))
}

#[verifier::spinoff_prover]
#[verifier::rlimit(80)]
proof fn types_are_read(
    types: Seq<TypeView>,
    owner: TypeId,
    list: Seq<TypeId>,
    i: int,
    text: Seq<char>,
    pos: int,
    start: int,
    close: Seq<char>,
)
    requires
        table_wf(types),
        owner.0 < types.len(),
        forall|k: int|
            0 <= k < list.len() ==> (#[trigger] list[k]).0 < owner.0 && spellable(types, list[k]),
        0 <= i < list.len(),
        0 <= pos,
        start == pos || start == pos + 1 && pos < text.len() && is_space(text[pos]),
        close == ")"@ || close == ">"@,
        spells_at(text, start, tail_text(types, list, i) + close),
    ensures
        types_at(text, pos, close) == Ok::<
            (Seq<TypeTree>, int),
            (int, crate::error::ErrorView),
        >((written_all(types, list).skip(i), start + tail_text(types, list, i).len() + 1)),
    decreases owner.0, 1nat, list.len() - i,
{
    reveal_strlit(")");
    reveal_strlit(">");
    reveal_strlit(",");
    reveal_strlit(", ");
    let here = type_text(types, list[i]);
    let all = written_all(types, list);
    assert(list[i].0 < owner.0);
    let p = start + here.len();
    if i + 1 < list.len() {
        let more = tail_text(types, list, i + 1);
        assert(tail_text(types, list, i) + close =~= here + (", "@ + (more + close)));
        spelling_splits(text, start, here, ", "@ + (more + close));
        spelling_splits(text, p, ", "@, more + close);
        spelled_char(text, p, ", "@, 0);
        spelled_char(text, p, ", "@, 1);
        assert(spells_at(text, p, ","@)) by {
            assert(text.subrange(p, p + 1) =~= ","@);
        }
        token_is_read(text, p, ","@);
        other_token(text, p, ',', close);
        type_is_read(types, list[i], text, start);
        if start != pos {
            space_before_type(text, pos);
        }
        types_are_read(types, owner, list, i + 1, text, p + 1, p + 2, close);
        assert(all.skip(i) =~= seq![all[i]] + all.skip(i + 1));
        assert(tail_text(types, list, i).len() == here.len() + 2 + more.len());
    } else {
        assert(tail_text(types, list, i) + close =~= here + close);
        spelling_splits(text, start, here, close);
        spelled_char(text, p, close, 0);
        token_is_read(text, p, close);
        type_is_read(types, list[i], text, start);
        if start != pos {
            space_before_type(text, pos);
        }
        assert(all.skip(i) =~= seq![all[i]]);
    }
}

proof fn starts_with_bang(types: Seq<TypeView>, id: TypeId)
    requires
        id.0 < types.len(),
    ensures
        type_text(types, id).len() > 0,
        type_text(types, id)[0] == '!',
{
    reveal_strlit("!");
}

/// A row of digits is read up to what follows it.
pub proof fn digits_are_read(text: Seq<char>, p: int, s: Seq<char>, i: int)
    requires
        spells_at(text, p, s),
        forall|k: int| 0 <= k < s.len() ==> is_digit(#[trigger] s[k]),
        p + s.len() < text.len(),
        !is_digit(text[p + s.len()]),
        0 <= i <= s.len(),
    ensures
        digits_end(text, p + i) == p + s.len(),
    decreases s.len() - i,
{
    if i < s.len() {
        spelled_char(text, p, s, i);
        digits_are_read(text, p, s, i + 1);
    }
}

#[verifier::spinoff_prover]
#[verifier::rlimit(80)]
proof fn fn_is_read(
    types: Seq<TypeView>,
    id: TypeId,
    params: Seq<TypeId>,
    ret: TypeId,
    text: Seq<char>,
    pos: int,
)
    requires
        table_wf(types),
        spellable(types, id),
        types[id.0 as int] == TypeView::Fn(params, ret),
        spells_at(text, pos, type_text(types, id)),
    ensures
        type_at(text, pos) == Ok::<(TypeTree, int), (int, crate::error::ErrorView)>(
            (written(types, id), pos + type_text(types, id).len()),
        ),
    decreases id.0, 2nat, 0nat,
{
    reveal_strlit("!");
    reveal_strlit("fn<(");
    reveal_strlit("fn");
    reveal_strlit("<");
    reveal_strlit("(");
    reveal_strlit(")");
    reveal_strlit(") -> ");
    reveal_strlit("->");
    reveal_strlit(">");
    assert(types[id.0 as int].made_below(id.0 as int));
    let list = type_list(types, id, params, params.len());
    let given = type_text(types, ret);
    let whole = type_text(types, id);
    let arrow = ") -> "@;
    assert(whole =~= ("!"@ + "fn"@) + ("<"@ + ("("@ + (list + (arrow + (given + ">"@))))));
    spelling_splits(text, pos, "!"@ + "fn"@, "<"@ + ("("@ + (list + (arrow + (given + ">"@)))));
    let p1 = pos + 3;
    spelling_splits(text, p1, "<"@, "("@ + (list + (arrow + (given + ">"@))));
    token_is_read(text, p1, "<"@);
    spelled_char(text, p1, "<"@, 0);
    head_is_read(text, pos, "fn"@);
    let p2 = p1 + 1;
    spelling_splits(text, p2, "("@, list + (arrow + (given + ">"@)));
    token_is_read(text, p2, "("@);
    let p3 = p2 + 1;
    spelling_splits(text, p3, list, arrow + (given + ">"@));
    let p4 = p3 + list.len();
    spelling_splits(text, p4, arrow, given + ">"@);
    spelled_char(text, p4, arrow, 0);
    spelled_char(text, p4, arrow, 1);
    spelled_char(text, p4, arrow, 2);
    spelled_char(text, p4, arrow, 3);
    spelled_char(text, p4, arrow, 4);
    assert(spells_at(text, p4, ")"@)) by {
        assert(text.subrange(p4, p4 + 1) =~= ")"@);
    }
    let trees = written_all(types, params);
    if params.len() == 0 {
        assert(list =~= Seq::<char>::empty());
        token_is_read(text, p3, ")"@);
        assert(trees =~= Seq::<TypeTree>::empty());
    } else {
        list_is_tail(types, id, params, 1);
        assert(type_list(types, id, params, 1) == type_text(types, params[0]));
        assert(list =~= tail_text(types, params, 0));
        assert(spells_at(text, p3, list + ")"@)) by {
            assert(text.subrange(p3, p3 + list.len() + 1) =~= list + ")"@) by {
                assert forall|k: int| 0 <= k < list.len() implies text[p3 + k] == list[k] by {
                    spelled_char(text, p3, list, k);
                }
            }
        }
        starts_with_bang(types, params[0]);
        assert(list[0] == '!');
        spelled_char(text, p3, list, 0);
        other_token(text, p3, '!', ")"@);
        types_are_read(types, id, params, 0, text, p3, p3, ")"@);
        assert(trees.skip(0) =~= trees);
    }
    assert(params_at(text, p3) == Ok::<(Seq<TypeTree>, int), (int, crate::error::ErrorView)>(
        (trees, p4 + 1),
    ));
    assert(spells_at(text, p4 + 2, "->"@)) by {
        assert(text.subrange(p4 + 2, p4 + 4) =~= "->"@);
    }
    token_is_read(text, p4 + 2, "->"@);
    assert(is_space(text[p4 + 1]));
    assert(skipped(text, p4 + 1) == p4 + 2);
    assert(token_at(text, p4 + 1, "->"@) == Some(p4 + 4));
    let p5 = p4 + 5;
    spelling_splits(text, p5, given, ">"@);
    let p6 = p5 + given.len();
    token_is_read(text, p6, ">"@);
    spelled_char(text, p6, ">"@, 0);
    type_is_read(types, ret, text, p5);
    assert(is_space(text[p4 + 4]));
    space_before_type(text, p4 + 4);
    assert(written(types, id)->Fn_0 =~= trees);
    assert(whole.len() == 3 + 2 + list.len() + 5 + given.len() + 1);
}

#[verifier::spinoff_prover]
#[verifier::rlimit(80)]
proof fn tuple_is_read(
    types: Seq<TypeView>,
    id: TypeId,
    elements: Seq<TypeId>,
    text: Seq<char>,
    pos: int,
)
    requires
        table_wf(types),
        spellable(types, id),
        types[id.0 as int] == TypeView::Tuple(elements),
        spells_at(text, pos, type_text(types, id)),
    ensures
        type_at(text, pos) == Ok::<(TypeTree, int), (int, crate::error::ErrorView)>(
            (written(types, id), pos + type_text(types, id).len()),
        ),
    decreases id.0, 2nat, 0nat,
{
    reveal_strlit("!");
    reveal_strlit("tuple<");
    reveal_strlit("tuple");
    reveal_strlit("fn");
    reveal_strlit("<");
    reveal_strlit(">");
    assert(types[id.0 as int].made_below(id.0 as int));
    let list = type_list(types, id, elements, elements.len());
    let whole = type_text(types, id);
    assert(whole =~= ("!"@ + "tuple"@) + ("<"@ + (list + ">"@)));
    spelling_splits(text, pos, "!"@ + "tuple"@, "<"@ + (list + ">"@));
    let p1 = pos + 6;
    spelling_splits(text, p1, "<"@, list + ">"@);
    token_is_read(text, p1, "<"@);
    spelled_char(text, p1, "<"@, 0);
    head_is_read(text, pos, "tuple"@);
    let p2 = p1 + 1;
    let trees = written_all(types, elements);
    if elements.len() == 0 {
        assert(list + ">"@ =~= ">"@);
        token_is_read(text, p2, ">"@);
        assert(trees =~= Seq::<TypeTree>::empty());
    } else {
        list_is_tail(types, id, elements, 1);
        assert(type_list(types, id, elements, 1) == type_text(types, elements[0]));
        assert(list =~= tail_text(types, elements, 0));
        starts_with_bang(types, elements[0]);
        assert(list[0] == '!');
        spelled_char(text, p2, list + ">"@, 0);
        other_token(text, p2, '!', ">"@);
        types_are_read(types, id, elements, 0, text, p2, p2, ">"@);
        assert(trees.skip(0) =~= trees);
    }
    assert(written(types, id)->Tuple_0 =~= trees);
    assert("tuple"@ != "fn"@);
}

#[verifier::spinoff_prover]
#[verifier::rlimit(80)]
proof fn ptr_is_read(
    types: Seq<TypeView>,
    id: TypeId,
    pointee: Option<TypeId>,
    text: Seq<char>,
    pos: int,
)
    requires
        table_wf(types),
        spellable(types, id),
        types[id.0 as int] == TypeView::Ptr(pointee),
        spells_at(text, pos, type_text(types, id)),
        type_ends(text, pos + type_text(types, id).len()),
    ensures
        type_at(text, pos) == Ok::<(TypeTree, int), (int, crate::error::ErrorView)>(
            (written(types, id), pos + type_text(types, id).len()),
        ),
    decreases id.0, 2nat, 0nat,
{
    reveal_strlit("!");
    reveal_strlit("builtin");
    reveal_strlit("ptr");
    reveal_strlit(".");
    reveal_strlit("p<");
    reveal_strlit("p");
    reveal_strlit("<");
    reveal_strlit(">");
    dialects_differ();
    assert(types[id.0 as int].made_below(id.0 as int));
    let whole = type_text(types, id);
    let head = "!"@ + ("ptr"@ + "."@) + "p"@;
    match pointee {
        None => {
            assert(whole =~= head);
            dialect_head_is_read(text, pos, "ptr"@, "p"@);
            let p = pos + head.len();
            let q = skipped(text, p);
            skipping_goes_on(text, p);
            if q + 1 <= text.len() && text.subrange(q, q + 1) == "<"@ {
                assert(text.subrange(q, q + 1)[0] == '<');
                assert(text[q] == '<');
            }
            assert(token_at(text, p, "<"@) is None);
        },
        Some(ty) => {
            let given = type_text(types, ty);
            assert(whole =~= head + ("<"@ + (given + ">"@)));
            spelling_splits(text, pos, head, "<"@ + (given + ">"@));
            let p = pos + head.len();
            spelling_splits(text, p, "<"@, given + ">"@);
            spelled_char(text, p, "<"@, 0);
            token_is_read(text, p, "<"@);
            dialect_head_is_read(text, pos, "ptr"@, "p"@);
            spelling_splits(text, p + 1, given, ">"@);
            let q = p + 1 + given.len();
            token_is_read(text, q, ">"@);
            spelled_char(text, q, ">"@, 0);
            type_is_read(types, ty, text, p + 1);
        },
    }
}

#[verifier::spinoff_prover]
#[verifier::rlimit(80)]
proof fn vector_is_read(
    types: Seq<TypeView>,
    id: TypeId,
    element: TypeId,
    length: Option<u32>,
    text: Seq<char>,
    pos: int,
)
    requires
        table_wf(types),
        spellable(types, id),
        types[id.0 as int] == TypeView::Vector(element, length),
        spells_at(text, pos, type_text(types, id)),
    ensures
        type_at(text, pos) == Ok::<(TypeTree, int), (int, crate::error::ErrorView)>(
            (written(types, id), pos + type_text(types, id).len()),
        ),
{
    reveal_strlit("!");
    reveal_strlit("builtin");
    reveal_strlit("ptr");
    reveal_strlit("vector");
    reveal_strlit(".");
    reveal_strlit("vec<");
    reveal_strlit("vec");
    reveal_strlit("x");
    reveal_strlit("<");
    reveal_strlit(">");
    dialects_differ();
    assert(types[id.0 as int].made_below(id.0 as int));
    plain_is_named(types, element);
    let body = type_body(types, element);
    let whole = type_text(types, id);
    let head = "!"@ + ("vector"@ + "."@) + "vec"@;
    let count = match length {
        Some(n) => decimal(n as nat) + "x"@,
        None => Seq::<char>::empty(),
    };
    assert(whole =~= head + ("<"@ + (count + (body + ">"@))));
    spelling_splits(text, pos, head, "<"@ + (count + (body + ">"@)));
    let p = pos + head.len();
    spelling_splits(text, p, "<"@, count + (body + ">"@));
    spelled_char(text, p, "<"@, 0);
    token_is_read(text, p, "<"@);
    dialect_head_is_read(text, pos, "vector"@, "vec"@);
    let q = p + 1;
    spelling_splits(text, q, count, body + ">"@);
    let e = q + count.len();
    spelling_splits(text, e, body, ">"@);
    spelled_char(text, e, body, 0);
    let last = e + body.len();
    spelled_char(text, last, ">"@, 0);
    token_is_read(text, last, ">"@);
    word_is_read(text, e, body);
    assert(is_name(body[0]));
    match length {
        Some(n) => {
            let digits = decimal(n as nat);
            decimal_is_read_back(n as nat);
            spelling_splits(text, q, digits, "x"@);
            let x = q + digits.len();
            spelled_char(text, x, "x"@, 0);
            token_is_read(text, x, "x"@);
            spelled_char(text, q, digits, 0);
            assert(is_digit(digits[0]));
            digits_are_read(text, q, digits, 0);
            assert(skipped(text, q) == q);
            assert(number_at(text, q) == Some((n as int, x)));
            assert((n as int) % 0x1_0000_0000 == n);
        },
        None => {
            assert(e == q);
            assert(skipped(text, q) == q);
            assert(digits_end(text, q) == q);
            assert(number_at(text, q) is None);
        },
    }
}

/// A type that has a form is read back from it, wherever it stands, as long as
/// what follows cannot go on with it.
pub proof fn type_is_read(types: Seq<TypeView>, id: TypeId, text: Seq<char>, pos: int)
    requires
        table_wf(types),
        spellable(types, id),
        spells_at(text, pos, type_text(types, id)),
        type_ends(text, pos + type_text(types, id).len()),
    ensures
        type_at(text, pos) == Ok::<(TypeTree, int), (int, crate::error::ErrorView)>(
            (written(types, id), pos + type_text(types, id).len()),
        ),
    decreases id.0, 3nat, 0nat,
{
    match types[id.0 as int] {
        TypeView::Fn(params, ret) => {
            fn_is_read(types, id, params, ret, text, pos);
        },
        TypeView::Tuple(elements) => {
            tuple_is_read(types, id, elements, text, pos);
        },
        TypeView::Ptr(pointee) => {
            ptr_is_read(types, id, pointee, text, pos);
        },
        TypeView::Vector(element, length) => {
            vector_is_read(types, id, element, length, text, pos);
        },
        _ => {
            plain_is_named(types, id);
            let body = type_body(types, id);
            reveal_strlit("!");
            assert(type_text(types, id) =~= "!"@ + body);
            head_is_read(text, pos, body);
            dialects_differ();
        },
    }
}

proof fn known_type_stays(types: Seq<TypeView>, id: TypeId)
    requires
        table_wf(types),
        id.0 < types.len(),
    ensures
        put(types, types[id.0 as int]) == (types, id),
{
    let ty = types[id.0 as int];
    assert(types.contains(ty));
    first_position_at(types, ty, id.0 as int);
}

proof fn plain_is_known(types: Seq<TypeView>, id: TypeId)
    requires
        table_wf(types),
        id.0 < types.len(),
        plain(types[id.0 as int]),
    ensures
        interned_tree(types, plain_tree(types[id.0 as int])) == (types, id),
{
    known_type_stays(types, id);
    match types[id.0 as int] {
        TypeView::State => {},
        TypeView::Index => {},
        TypeView::Unit => {},
        TypeView::VarArgs => {},
        TypeView::Token => {},
        _ => {},
    }
}

proof fn written_list_is_known(
    types: Seq<TypeView>,
    owner: TypeId,
    list: Seq<TypeId>,
    trees: Seq<TypeTree>,
    n: nat,
)
    requires
        table_wf(types),
        forall|k: int|
            0 <= k < list.len() ==> (#[trigger] list[k]).0 < owner.0 && spellable(types, list[k]),
        trees == written_all(types, list),
        n <= list.len(),
    ensures
        interned_trees(types, trees, n) == (types, list.take(n as int)),
    decreases owner.0, 0nat, n,
{
    if n == 0 {
        assert(list.take(0) =~= Seq::<TypeId>::empty());
    } else {
        written_list_is_known(types, owner, list, trees, (n - 1) as nat);
        assert(list[n - 1].0 < owner.0);
        written_type_is_known(types, list[n - 1]);
        assert(list.take(n - 1).push(list[n - 1]) =~= list.take(n as int));
    }
}

/// Interning what a type is written as changes no table that holds the type, and
/// gives the type.
pub proof fn written_type_is_known(types: Seq<TypeView>, id: TypeId)
    requires
        table_wf(types),
        spellable(types, id),
    ensures
        interned_tree(types, written(types, id)) == (types, id),
    decreases id.0, 1nat, 0nat,
{
    known_type_stays(types, id);
    match types[id.0 as int] {
        TypeView::Fn(params, ret) => {
            let trees = written(types, id)->Fn_0;
            assert(trees =~= written_all(types, params));
            written_list_is_known(types, id, params, trees, params.len());
            assert(params.take(params.len() as int) =~= params);
            written_type_is_known(types, ret);
        },
        TypeView::Tuple(elements) => {
            let trees = written(types, id)->Tuple_0;
            assert(trees =~= written_all(types, elements));
            written_list_is_known(types, id, elements, trees, elements.len());
            assert(elements.take(elements.len() as int) =~= elements);
        },
        TypeView::Ptr(Some(pointee)) => {
            written_type_is_known(types, pointee);
        },
        TypeView::Vector(element, _) => {
            plain_is_known(types, element);
        },
        TypeView::Ptr(None) => {},
        _ => {
            plain_is_known(types, id);
        },
    }
}

/// Printing a type that has a form and reading the text back gives the type
/// itself, and no new one.
pub proof fn printed_types_are_read_back(types: Seq<TypeView>, id: TypeId)
    requires
        table_wf(types),
        spellable(types, id),
    ensures
        ({
            let text = type_text(types, id);
            match type_at(text, 0) {
                Ok((tree, end)) => end == text.len() && interned_tree(types, tree) == (types, id),
                Err(_) => false,
            }
        }),
{
    let text = type_text(types, id);
    assert(text.subrange(0, text.len() as int) =~= text);
    type_is_read(types, id, text, 0);
    written_type_is_known(types, id);
}

} // verus!

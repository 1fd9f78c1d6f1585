//! That printed declarations are read back.
use vstd::prelude::*;
use vstd::string::*;
use crate::access::types_in;
use crate::context::ContextView;
use crate::dependency::value_name;
use crate::dialects::builtin::float::is_space;
use crate::dialects::builtin::round_trip::comma_from;
use crate::dialects::builtin::round_trip::comma_is_read;
use crate::dialects::builtin::round_trip::commas_agree;
use crate::dialects::builtin::round_trip::texts_of;
use crate::dialects::builtin::round_trip::trees;
use crate::dialects::builtin::round_trip::type_names_are_commas;
use crate::dialects::func::syntax::declare_at;
use crate::dialects::func::syntax::signature_at;
use crate::dialects::func::syntax::DeclareTree;
use crate::error::ErrorView;
use crate::ids::OpId;
use crate::ids::TypeId;
use crate::interfaces::Visibility;
use crate::parse::round_trip::is_word;
use crate::parse::round_trip::other_token;
use crate::parse::round_trip::space_before_type;
use crate::parse::round_trip::spellable;
use crate::parse::round_trip::spelled_char;
use crate::parse::round_trip::spelling_splits;
use crate::parse::round_trip::spells_at;
use crate::parse::round_trip::token_is_read;
use crate::parse::round_trip::type_ends;
use crate::parse::round_trip::type_is_read;
use crate::parse::round_trip::word_is_read;
use crate::parse::round_trip::written;
use crate::parse::text::sigil_at;
use crate::parse::text::skipped;
use crate::parse::text::token_at;
use crate::parse::types::params_at;
use crate::parse::types::types_at;
use crate::parse::types::TypeTree;
use crate::ty::table_wf;
use crate::ty::type_text;
use crate::ty::TypeView;

verus! {

/// The types from the one at `i` on are read back up to the closing bracket.
proof fn params_are_read(
    types: Seq<TypeView>,
    text: Seq<char>,
    pos: int,
    start: int,
    list: Seq<TypeId>,
    i: int,
)
    requires
        table_wf(types),
        0 <= i < list.len(),
        forall|k: int| 0 <= k < list.len() ==> spellable(types, #[trigger] list[k]),
        0 <= pos,
        start == pos || start == pos + 1 && pos < text.len() && is_space(text[pos]),
        spells_at(text, start, comma_from(texts_of(types, list), i) + ")"@),
    ensures
        types_at(text, pos, ")"@) == Ok::<(Seq<TypeTree>, int), (int, ErrorView)>(
            (trees(types, list).skip(i), start + comma_from(texts_of(types, list), i).len() + 1),
        ),
    decreases list.len() - i,
{
    reveal_strlit(", ");
    reveal_strlit(",");
    reveal_strlit(")");
    let texts = texts_of(types, list);
    let here = type_text(types, list[i]);
    let all = trees(types, list);
    let p = start + here.len();
    if i + 1 < list.len() {
        let more = comma_from(texts, i + 1);
        assert(comma_from(texts, i) + ")"@ =~= here + (", "@ + (more + ")"@)));
        spelling_splits(text, start, here, ", "@ + (more + ")"@));
        spelling_splits(text, p, ", "@, more + ")"@);
        comma_is_read(text, p);
        other_token(text, p, ',', ")"@);
        type_is_read(types, list[i], text, start);
        if start != pos {
            space_before_type(text, pos);
        }
        params_are_read(types, text, p + 1, p + 2, list, i + 1);
        assert(all.skip(i) =~= seq![all[i]] + all.skip(i + 1));
    } else {
        assert(comma_from(texts, i) + ")"@ =~= here + ")"@);
        spelling_splits(text, start, here, ")"@);
        spelled_char(text, p, ")"@, 0);
        token_is_read(text, p, ")"@);
        type_is_read(types, list[i], text, start);
        if start != pos {
            space_before_type(text, pos);
        }
        assert(all.skip(i) =~= seq![all[i]]);
    }
}

/// A name and a signature as they are printed: `@name(t1, t2) -> t`.
pub open spec fn signature_text(
    context: ContextView,
    name: Seq<char>,
    params: Seq<TypeId>,
    ret: TypeId,
) -> Seq<char> {
    "@"@ + (name + ("("@ + (context.type_names(params, params.len() as int) + (")"@ + (" -> "@
        + type_text(context.types, ret))))))
}

/// A printed name and signature are read back, wherever they stand, as long as
/// what follows cannot go on with them.
#[verifier::spinoff_prover]
#[verifier::rlimit(60)]
pub proof fn printed_signatures_are_read_back(
    context: ContextView,
    name: Seq<char>,
    params: Seq<TypeId>,
    ret: TypeId,
    text: Seq<char>,
    pos: int,
    start: int,
)
    requires
        table_wf(context.types),
        is_word(name),
        forall|k: int| 0 <= k < params.len() ==> spellable(context.types, #[trigger] params[k]),
        spellable(context.types, ret),
        0 <= pos,
        start == pos || start == pos + 1 && pos < text.len() && is_space(text[pos]),
        spells_at(text, start, signature_text(context, name, params, ret)),
        type_ends(text, start + signature_text(context, name, params, ret).len()),
    ensures
        signature_at(text, pos) == Ok::<
            ((Seq<char>, Seq<TypeTree>, TypeTree), int),
            (int, ErrorView),
        >(
            (
                (name, trees(context.types, params), written(context.types, ret)),
                start + signature_text(context, name, params, ret).len(),
            ),
        ),
{
    reveal_strlit("@");
    reveal_strlit("(");
    reveal_strlit(")");
    reveal_strlit(" -> ");
    reveal_strlit("->");
    reveal_strlit("!");
    let types = context.types;
    let list = context.type_names(params, params.len() as int);
    let tail = type_text(types, ret);
    let after = ")"@ + (" -> "@ + tail);
    spelling_splits(text, start, "@"@, name + ("("@ + (list + after)));
    spelled_char(text, start, "@"@, 0);
    spelling_splits(text, start + 1, name, "("@ + (list + after));
    let p = start + 1 + name.len();
    spelling_splits(text, p, "("@, list + after);
    spelled_char(text, p, "("@, 0);
    word_is_read(text, start + 1, name);
    assert(skipped(text, start) == start);
    assert(skipped(text, pos) == start);
    assert(sigil_at(text, pos, '@') == Some((name, p)));
    token_is_read(text, p, "("@);
    spelling_splits(text, p + 1, list, after);
    let q = p + 1 + list.len();
    spelling_splits(text, q, ")"@, " -> "@ + tail);
    spelled_char(text, q, ")"@, 0);
    spelling_splits(text, q + 1, " -> "@, tail);
    spelled_char(text, q + 1, " -> "@, 0);
    spelled_char(text, q + 1, " -> "@, 1);
    spelled_char(text, q + 1, " -> "@, 2);
    spelled_char(text, q + 1, " -> "@, 3);
    if params.len() == 0 {
        assert(list =~= Seq::<char>::empty());
        token_is_read(text, p + 1, ")"@);
        assert(trees(types, params) =~= Seq::<TypeTree>::empty());
    } else {
        type_names_are_commas(context, params, params.len() as int);
        commas_agree(texts_of(types, params), 1);
        let texts = texts_of(types, params);
        assert(list =~= comma_from(texts, 0));
        assert(spellable(types, params[0]));
        assert(type_text(types, params[0])[0] == '!');
        assert(list[0] == '!');
        spelled_char(text, p + 1, list, 0);
        other_token(text, p + 1, '!', ")"@);
        assert(list + after =~= (list + ")"@) + (" -> "@ + tail));
        spelling_splits(text, p + 1, list + ")"@, " -> "@ + tail);
        params_are_read(types, text, p + 1, p + 1, params, 0);
        assert(trees(types, params).skip(0) =~= trees(types, params));
    }
    assert(params_at(text, p + 1) == Ok::<(Seq<TypeTree>, int), (int, ErrorView)>(
        (trees(types, params), q + 1),
    ));
    assert(skipped(text, q + 2) == q + 2);
    assert(skipped(text, q + 1) == q + 2);
    assert(text.subrange(q + 2, q + 4) =~= "->"@);
    assert(token_at(text, q + 1, "->"@) == Some(q + 4));
    type_is_read(types, ret, text, q + 5);
    space_before_type(text, q + 4);
}

/// What stands between the mnemonic of a function and its name.
pub open spec fn kept_from(private: bool) -> Seq<char> {
    if private {
        " private"@
    } else {
        Seq::<char>::empty()
    }
}

/// The word that says a function is private is read where it stands.
pub proof fn privacy_is_read(private: bool, text: Seq<char>, pos: int)
    requires
        spells_at(text, pos, kept_from(private)),
        ({
            let p = pos + kept_from(private).len();
            p + 1 < text.len() && text[p] == ' ' && text[p + 1] == '@'
        }),
    ensures
        token_at(text, pos, "private"@) == if private {
            Some(pos + kept_from(private).len())
        } else {
            None
        },
{
    reveal_strlit(" private");
    reveal_strlit("private");
    let p = pos + kept_from(private).len();
    if private {
        spelled_char(text, pos, " private"@, 0);
        spelled_char(text, pos, " private"@, 1);
        assert(skipped(text, pos + 1) == pos + 1);
        assert(skipped(text, pos) == pos + 1);
        assert(text.subrange(pos + 1, pos + 8) =~= "private"@) by {
            assert forall|k: int| 0 <= k < 7 implies text[pos + 1 + k] == "private"@[k] by {
                spelled_char(text, pos, " private"@, k + 1);
            }
        }
    } else {
        assert(skipped(text, pos + 1) == pos + 1);
        assert(skipped(text, pos) == pos + 1);
        if pos + 8 <= text.len() {
            assert(text.subrange(pos + 1, pos + 8)[0] == '@');
        }
    }
}

/// A printed declaration is read back behind its mnemonic: its name, its
/// signature, and whether it is private.
#[verifier::spinoff_prover]
#[verifier::rlimit(60)]
pub proof fn printed_declarations_are_read_back(
    context: ContextView,
    private: bool,
    name: Seq<char>,
    params: Seq<TypeId>,
    ret: TypeId,
    text: Seq<char>,
    pos: int,
)
    requires
        table_wf(context.types),
        is_word(name),
        forall|k: int| 0 <= k < params.len() ==> spellable(context.types, #[trigger] params[k]),
        spellable(context.types, ret),
        spells_at(
            text,
            pos,
            kept_from(private) + (" "@ + signature_text(context, name, params, ret)),
        ),
        type_ends(
            text,
            pos + kept_from(private).len() + 1 + signature_text(context, name, params, ret).len(),
        ),
    ensures
        declare_at(text, pos) == Ok::<(DeclareTree, int), (int, ErrorView)>(
            (
                DeclareTree {
                    private,
                    name,
                    params: trees(context.types, params),
                    ret: written(context.types, ret),
                },
                pos + kept_from(private).len() + 1 + signature_text(
                    context,
                    name,
                    params,
                    ret,
                ).len(),
            ),
        ),
{
    reveal_strlit("@");
    reveal_strlit(" ");
    let said = signature_text(context, name, params, ret);
    let kept = kept_from(private);
    let p = pos + kept.len();
    spelling_splits(text, pos, kept, " "@ + said);
    spelling_splits(text, p, " "@, said);
    spelled_char(text, p, " "@, 0);
    assert(said[0] == '@');
    spelled_char(text, p + 1, said, 0);
    privacy_is_read(private, text, pos);
    printed_signatures_are_read_back(context, name, params, ret, text, p, p + 1);
}

/// Texts that follow each other can be grouped either way.
pub proof fn regrouped(a: Seq<char>, b: Seq<char>, c: Seq<char>)
    ensures
        a + (b + c) == a + b + c,
{
    assert(a + (b + c) =~= a + b + c);
}

/// A declaration is printed as its value, its mnemonic, and what is read back of
/// it, up to the end of its line.
pub proof fn declarations_are_printed_whole(
    context: ContextView,
    op: OpId,
    params: Seq<TypeId>,
    ret: TypeId,
)
    requires
        context.signature_of(context.ir.op(op)->0.results[0]) == Some((params, ret)),
    ensures
        context.func_declare_text(op) == value_name(context.ir.op(op)->0.results[0])
            + " = func.declare"@ + (kept_from(context.visibility_of(op) == Visibility::Private) + (
        " "@ + signature_text(context, context.str_attr(op, "sym_name"@)->0, params, ret)))
            + "\n"@,
{
    let v = value_name(context.ir.op(op)->0.results[0]) + " = func.declare"@;
    let k = kept_from(context.visibility_of(op) == Visibility::Private);
    let n = context.str_attr(op, "sym_name"@)->0;
    let l = context.type_names(params, params.len() as int);
    let t = type_text(context.types, ret);
    let e = "\n"@;
    assert(") -> "@ =~= ")"@ + " -> "@) by {
        reveal_strlit(") -> ");
        reveal_strlit(")");
        reveal_strlit(" -> ");
    }
    assert(" @"@ =~= " "@ + "@"@) by {
        reveal_strlit(" @");
        reveal_strlit(" ");
        reveal_strlit("@");
    }
    let f1 = v + k;
    let f2 = f1 + " "@;
    let f3 = f2 + "@"@;
    let f4 = f3 + n;
    let f5 = f4 + "("@;
    let f6 = f5 + l;
    let f7 = f6 + ")"@;
    let f8 = f7 + " -> "@;
    regrouped(f1, " @"@ + n, "("@);
    regrouped(f1, " @"@, n);
    regrouped(f1, " "@, "@"@);
    regrouped(f6, ")"@, " -> "@);
    regrouped(f8, t, e);
    let x6 = " -> "@ + t;
    let x5 = ")"@ + x6;
    let x4 = l + x5;
    let x3 = "("@ + x4;
    let x2 = n + x3;
    let x1 = "@"@ + x2;
    regrouped(v, k, " "@ + x1);
    regrouped(f1, " "@, x1);
    regrouped(f2, "@"@, x2);
    regrouped(f3, n, x3);
    regrouped(f4, "("@, x4);
    regrouped(f5, l, x5);
    regrouped(f6, ")"@, x6);
    regrouped(f7, " -> "@, t);
}

/// A declaration of the `builtin` dialect is printed as its mnemonic and what is
/// read back of it, up to the end of its line.
pub proof fn builtin_declarations_are_printed_whole(
    context: ContextView,
    op: OpId,
    params: Seq<TypeId>,
    ret: TypeId,
)
    requires
        types_in(context.array_attr(op, "arg_types"@)->0) == params,
        context.type_attr(op, "ret_type"@) == Some(ret),
    ensures
        context.declare_text(op) == "declare "@ + signature_text(
            context,
            context.str_attr(op, "sym_name"@)->0,
            params,
            ret,
        ) + "\n"@,
{
    let n = context.str_attr(op, "sym_name"@)->0;
    let l = context.type_names(params, params.len() as int);
    let t = type_text(context.types, ret);
    assert(") -> "@ =~= ")"@ + " -> "@) by {
        reveal_strlit(") -> ");
        reveal_strlit(")");
        reveal_strlit(" -> ");
    }
    assert("declare @"@ =~= "declare "@ + "@"@) by {
        reveal_strlit("declare @");
        reveal_strlit("declare ");
        reveal_strlit("@");
    }
    let f3 = "declare "@ + "@"@;
    let f4 = f3 + n;
    let f5 = f4 + "("@;
    let f6 = f5 + l;
    let f7 = f6 + ")"@;
    regrouped(f6, ")"@, " -> "@);
    let x6 = " -> "@ + t;
    let x5 = ")"@ + x6;
    let x4 = l + x5;
    let x3 = "("@ + x4;
    let x2 = n + x3;
    regrouped("declare "@, "@"@, x2);
    regrouped(f3, n, x3);
    regrouped(f4, "("@, x4);
    regrouped(f5, l, x5);
    regrouped(f6, ")"@, x6);
    regrouped(f7, " -> "@, t);
}

} // verus!

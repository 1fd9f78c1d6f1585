//! That printed calls and function headers are read back.
use vstd::prelude::*;
use vstd::string::*;
use crate::context::ContextView;
use crate::dependency::value_list;
use crate::dependency::value_name;
use crate::dialects::builtin::float::is_space;
use crate::dialects::builtin::round_trip::args_spellable;
use crate::dialects::builtin::round_trip::comma_from;
use crate::dialects::builtin::round_trip::comma_is_read;
use crate::dialects::builtin::round_trip::comma_upto;
use crate::dialects::builtin::round_trip::commas_agree;
use crate::dialects::builtin::round_trip::id_is_read;
use crate::dialects::builtin::round_trip::ids_are_read;
use crate::dialects::builtin::round_trip::names_of;
use crate::dialects::builtin::round_trip::number_is_named;
use crate::dialects::builtin::round_trip::texts_of;
use crate::dialects::builtin::round_trip::trees;
use crate::dialects::builtin::round_trip::type_names_are_commas;
use crate::dialects::builtin::round_trip::type_run_is_read;
use crate::dialects::builtin::round_trip::value_list_is_commas;
use crate::dialects::builtin::syntax::arg_ids_at;
use crate::dialects::builtin::syntax::call_rest_at;
use crate::dialects::builtin::syntax::func_at;
use crate::dialects::builtin::syntax::id_at;
use crate::dialects::builtin::syntax::param_at;
use crate::dialects::builtin::syntax::params_at;
use crate::dialects::builtin::syntax::typed_ids_at;
use crate::dialects::builtin::syntax::CallTree;
use crate::dialects::builtin::syntax::FuncTree;
use crate::error::ErrorView;
use crate::ids::OpId;
use crate::ids::TypeId;
use crate::ids::ValueId;
use crate::ir::Value;
use crate::parse::lists::arrow_type_at;
use crate::parse::round_trip::is_word;
use crate::parse::round_trip::other_token;
use crate::parse::round_trip::skipping_goes_on;
use crate::parse::round_trip::space_before_type;
use crate::parse::round_trip::spellable;
use crate::parse::round_trip::spelled_char;
use crate::parse::round_trip::spelling_splits;
use crate::parse::round_trip::spells_at;
use crate::parse::round_trip::token_is_read;
use crate::parse::round_trip::type_ends;
use crate::parse::round_trip::type_is_read;
use crate::parse::round_trip::word_is_read;
use crate::parse::round_trip::written;
use crate::parse::text::is_name;
use crate::parse::text::peeked;
use crate::parse::text::region_at;
use crate::parse::text::sigil_at;
use crate::parse::text::skipped;
use crate::parse::text::symbol_name;
use crate::parse::text::token_at;
use crate::parse::types::TypeTree;
use crate::text::decimal;
use crate::ty::table_wf;
use crate::ty::type_text;
use crate::ty::TypeView;

verus! {

/// What the types of `args` say in writing.
pub open spec fn arg_trees(context: ContextView, args: Seq<ValueId>) -> Seq<TypeTree> {
    Seq::new(args.len(), |i: int| written(context.types, context.type_of(args[i])))
}

/// Printed arguments are read back, wherever they stand: the values and their
/// types.
#[verifier::spinoff_prover]
#[verifier::rlimit(60)]
pub proof fn printed_arguments_are_read_back(
    context: ContextView,
    args: Seq<ValueId>,
    text: Seq<char>,
    pos: int,
)
    requires
        table_wf(context.types),
        args_spellable(context, args),
        spells_at(text, pos, context.typed_args(args)),
    ensures
        arg_ids_at(text, pos) == Ok::<((Seq<ValueId>, Seq<TypeTree>), int), (int, ErrorView)>(
            ((args, arg_trees(context, args)), pos + context.typed_args(args).len()),
        ),
{
    reveal_strlit("()");
    reveal_strlit("(");
    reveal_strlit(")");
    reveal_strlit(" : ");
    reveal_strlit(":");
    let whole = context.typed_args(args);
    if args.len() == 0 {
        assert(whole =~= "("@ + ")"@);
        spelling_splits(text, pos, "("@, ")"@);
        token_is_read(text, pos, "("@);
        token_is_read(text, pos + 1, ")"@);
        assert(arg_trees(context, args) =~= Seq::<TypeTree>::empty());
        assert(args =~= Seq::<ValueId>::empty());
    } else {
        let list = context.types_of(args);
        let values = value_list(args);
        let names = context.type_names(list, args.len() as int);
        let types = context.types;
        assert(whole =~= "("@ + (values + (" : "@ + (names + ")"@))));
        spelling_splits(text, pos, "("@, values + (" : "@ + (names + ")"@)));
        token_is_read(text, pos, "("@);
        let a = pos + 1;
        spelling_splits(text, a, values, " : "@ + (names + ")"@));
        let b = a + values.len();
        spelling_splits(text, b, " : "@, names + ")"@);
        spelled_char(text, b, " : "@, 0);
        spelled_char(text, b, " : "@, 1);
        spelled_char(text, b, " : "@, 2);
        assert(skipped(text, b + 1) == b + 1);
        assert(skipped(text, b) == b + 1);
        value_list_is_commas(args);
        commas_agree(names_of(args), 1);
        assert(values =~= comma_from(names_of(args), 0));
        first_is_a_value(text, a, args);
        ids_are_read(text, a, a, args, 0, false);
        assert(args.skip(0) =~= args);
        assert(spells_at(text, b + 1, ":"@)) by {
            assert(text.subrange(b + 1, b + 2) =~= ":"@);
        }
        token_is_read(text, b + 1, ":"@);
        assert(token_at(text, b, ":"@) == Some(b + 2));
        type_names_are_commas(context, list, list.len() as int);
        commas_agree(texts_of(types, list), 1);
        assert(names =~= comma_from(texts_of(types, list), 0));
        assert forall|k: int| 0 <= k < list.len() implies spellable(types, #[trigger] list[k]) by {
            assert(context.ir.value(args[k]) is Some);
        }
        type_run_is_read(types, text, b + 2, b + 3, list, 0);
        assert(trees(types, list).skip(0) =~= arg_trees(context, args));
        let c = b + 3 + names.len();
        spelling_splits(text, b + 3, names, ")"@);
        token_is_read(text, c, ")"@);
        assert(typed_ids_at(text, a, false) == Ok::<
            ((Seq<ValueId>, Seq<TypeTree>), int),
            (int, ErrorView),
        >(((args, arg_trees(context, args)), c + 1)));
    }
}

/// A list of values does not start with a closing bracket.
pub proof fn first_is_a_value(text: Seq<char>, a: int, args: Seq<ValueId>)
    requires
        args.len() > 0,
        spells_at(text, a, comma_from(names_of(args), 0)),
    ensures
        token_at(text, a, ")"@) is None,
{
    reveal_strlit("%");
    reveal_strlit(")");
    let list = comma_from(names_of(args), 0);
    let name = value_name(args[0]);
    assert(name[0] == '%');
    assert(list[0] == '%');
    spelled_char(text, a, list, 0);
    other_token(text, a, '%', ")"@);
}

/// What a printed result is behind its arrow, where there is one.
pub open spec fn arrow_text(context: ContextView, ret: Option<TypeId>) -> Seq<char> {
    match ret {
        Some(ty) => " -> "@ + type_text(context.types, ty),
        None => Seq::empty(),
    }
}

/// What a printed result says in writing.
pub open spec fn arrow_tree(context: ContextView, ret: Option<TypeId>) -> Option<TypeTree> {
    match ret {
        Some(ty) => Some(written(context.types, ty)),
        None => None,
    }
}

/// Whether what stands at `p` cannot go on with a result that ends there.
pub open spec fn arrow_ends(text: Seq<char>, p: int) -> bool {
    type_ends(text, p) && peeked(text, p) != Some('-')
}

/// A printed result is read back.
pub proof fn printed_results_are_read_back(
    context: ContextView,
    ret: Option<TypeId>,
    text: Seq<char>,
    pos: int,
)
    requires
        table_wf(context.types),
        ret matches Some(ty) ==> spellable(context.types, ty),
        spells_at(text, pos, arrow_text(context, ret)),
        arrow_ends(text, pos + arrow_text(context, ret).len()),
    ensures
        arrow_type_at(text, pos) == Ok::<(Option<TypeTree>, int), (int, ErrorView)>(
            (arrow_tree(context, ret), pos + arrow_text(context, ret).len()),
        ),
{
    reveal_strlit(" -> ");
    reveal_strlit("->");
    match ret {
        Some(ty) => {
            let body = type_text(context.types, ty);
            spelling_splits(text, pos, " -> "@, body);
            spelled_char(text, pos, " -> "@, 0);
            spelled_char(text, pos, " -> "@, 1);
            spelled_char(text, pos, " -> "@, 2);
            spelled_char(text, pos, " -> "@, 3);
            assert(skipped(text, pos + 1) == pos + 1);
            assert(skipped(text, pos) == pos + 1);
            assert(text.subrange(pos + 1, pos + 3) =~= "->"@);
            assert(token_at(text, pos, "->"@) == Some(pos + 3));
            type_is_read(context.types, ty, text, pos + 4);
            space_before_type(text, pos + 3);
        },
        None => {
            let q = skipped(text, pos);
            skipping_goes_on(text, pos);
            if q + 2 <= text.len() && text.subrange(q, q + 2) == "->"@ {
                assert(text.subrange(q, q + 2)[0] == '-');
                assert(peeked(text, pos) == Some('-'));
            }
            assert(token_at(text, pos, "->"@) is None);
        },
    }
}

/// A printed call is read back behind its mnemonic: the name of its callee, the
/// values it hands over and their types, and the type of what it gives.
pub proof fn printed_calls_are_read_back(
    context: ContextView,
    callee: Seq<char>,
    args: Seq<ValueId>,
    ret: Option<TypeId>,
    text: Seq<char>,
    pos: int,
)
    requires
        table_wf(context.types),
        is_word(callee),
        args_spellable(context, args),
        ret matches Some(ty) ==> spellable(context.types, ty),
        spells_at(
            text,
            pos,
            " @"@ + callee + (context.typed_args(args) + arrow_text(context, ret)),
        ),
        arrow_ends(
            text,
            pos + 2 + callee.len() + context.typed_args(args).len() + arrow_text(
                context,
                ret,
            ).len(),
        ),
    ensures
        call_rest_at(text, symbol_name(text, pos)) == Ok::<
            (CallTree<Seq<char>>, int),
            (int, ErrorView),
        >(
            (
                CallTree {
                    callee,
                    args,
                    arg_types: arg_trees(context, args),
                    ret: arrow_tree(context, ret),
                },
                pos + 2 + callee.len() + context.typed_args(args).len() + arrow_text(
                    context,
                    ret,
                ).len(),
            ),
        ),
{
    reveal_strlit(" @");
    reveal_strlit("(");
    let arguments = context.typed_args(args);
    let arrow = arrow_text(context, ret);
    let p = pos + 2 + callee.len();
    spelling_splits(text, pos, " @"@ + callee, arguments + arrow);
    spelling_splits(text, pos, " @"@, callee);
    spelled_char(text, pos, " @"@, 0);
    spelled_char(text, pos, " @"@, 1);
    spelling_splits(text, p, arguments, arrow);
    arguments_open(context, args);
    spelled_char(text, p, arguments, 0);
    word_is_read(text, pos + 2, callee);
    assert(skipped(text, pos + 1) == pos + 1);
    assert(skipped(text, pos) == pos + 1);
    assert(sigil_at(text, pos, '@') == Some((callee, p)));
    printed_arguments_are_read_back(context, args, text, p);
    printed_results_are_read_back(context, ret, text, p + arguments.len());
}

/// A printed call through a value is read back behind its mnemonic.
pub proof fn printed_indirect_calls_are_read_back(
    context: ContextView,
    callee: ValueId,
    args: Seq<ValueId>,
    ret: Option<TypeId>,
    text: Seq<char>,
    pos: int,
)
    requires
        table_wf(context.types),
        args_spellable(context, args),
        ret matches Some(ty) ==> spellable(context.types, ty),
        spells_at(
            text,
            pos,
            " "@ + value_name(callee) + (context.typed_args(args) + arrow_text(context, ret)),
        ),
        arrow_ends(
            text,
            pos + 1 + value_name(callee).len() + context.typed_args(args).len() + arrow_text(
                context,
                ret,
            ).len(),
        ),
    ensures
        call_rest_at(text, id_at(text, pos, false)) == Ok::<
            (CallTree<ValueId>, int),
            (int, ErrorView),
        >(
            (
                CallTree {
                    callee,
                    args,
                    arg_types: arg_trees(context, args),
                    ret: arrow_tree(context, ret),
                },
                pos + 1 + value_name(callee).len() + context.typed_args(args).len() + arrow_text(
                    context,
                    ret,
                ).len(),
            ),
        ),
{
    reveal_strlit(" ");
    reveal_strlit("(");
    let name = value_name(callee);
    let arguments = context.typed_args(args);
    let arrow = arrow_text(context, ret);
    let p = pos + 1 + name.len();
    spelling_splits(text, pos, " "@ + name, arguments + arrow);
    spelling_splits(text, pos, " "@, name);
    spelled_char(text, pos, " "@, 0);
    spelling_splits(text, p, arguments, arrow);
    arguments_open(context, args);
    spelled_char(text, p, arguments, 0);
    id_is_read(text, pos, pos + 1, callee, false);
    printed_arguments_are_read_back(context, args, text, p);
    printed_results_are_read_back(context, ret, text, p + arguments.len());
}

proof fn arguments_open(context: ContextView, args: Seq<ValueId>)
    ensures
        context.typed_args(args).len() > 0,
        context.typed_args(args)[0] == '(',
        !is_name('('),
{
    reveal_strlit("()");
    reveal_strlit("(");
}

/// What a call of the function `callee` gives, where it gives anything.
pub open spec fn given(context: ContextView, result: ValueId) -> Option<TypeId> {
    if context.calls_for_nothing(result) {
        None
    } else {
        Some(context.type_of(result))
    }
}

proof fn line_splits(
    context: ContextView,
    callee: Seq<char>,
    result: ValueId,
    args: Seq<ValueId>,
)
    ensures
        ({
            let ret = given(context, result);
            let said = " @"@ + callee + (context.typed_args(args) + arrow_text(context, ret));
            let ahead = if ret is None {
                "call"@
            } else {
                value_name(result) + " = "@ + "call"@
            };
            context.call_text("call @"@ + callee, result, args) == ahead + (said + "\n"@)
        }),
{
    reveal_strlit("call @");
    reveal_strlit("call");
    reveal_strlit(" @");
    let ret = given(context, result);
    let arguments = context.typed_args(args);
    let arrow = arrow_text(context, ret);
    let name = value_name(result);
    assert("call @"@ =~= "call"@ + " @"@);
    let header = "call @"@ + callee;
    assert(header =~= "call"@ + (" @"@ + callee));
    let said = " @"@ + callee + (arguments + arrow);
    if ret is None {
        assert(header + arguments + "\n"@ =~= "call"@ + (said + "\n"@));
    } else {
        let ty = type_text(context.types, context.type_of(result));
        assert(name + " = "@ + header + arguments + (" -> "@ + ty + "\n"@) =~= (name + " = "@
            + "call"@) + (said + "\n"@));
    }
}

/// A call is read back from what it is printed as, behind its mnemonic and up to
/// the end of its line.
#[verifier::spinoff_prover]
#[verifier::rlimit(80)]
pub proof fn call_lines_are_read_back(
    context: ContextView,
    callee: Seq<char>,
    result: ValueId,
    args: Seq<ValueId>,
)
    requires
        table_wf(context.types),
        is_word(callee),
        args_spellable(context, args),
        spellable(context.types, context.type_of(result)),
    ensures
        ({
            let text = context.call_text("call @"@ + callee, result, args);
            let mnemonic = if context.calls_for_nothing(result) {
                4
            } else {
                value_name(result).len() + 7
            };
            call_rest_at(text, symbol_name(text, mnemonic as int)) == Ok::<
                (CallTree<Seq<char>>, int),
                (int, ErrorView),
            >(
                (
                    CallTree {
                        callee,
                        args,
                        arg_types: arg_trees(context, args),
                        ret: arrow_tree(context, given(context, result)),
                    },
                    text.len() - 1,
                ),
            )
        }),
{
    reveal_strlit("call @");
    reveal_strlit("call");
    reveal_strlit(" @");
    reveal_strlit(" = ");
    reveal_strlit("\n");
    let ret = given(context, result);
    let text = context.call_text("call @"@ + callee, result, args);
    let said = " @"@ + callee + (context.typed_args(args) + arrow_text(context, ret));
    let ahead = if ret is None {
        "call"@
    } else {
        value_name(result) + " = "@ + "call"@
    };
    line_splits(context, callee, result, args);
    let pos = ahead.len() as int;
    assert(text.subrange(0, text.len() as int) =~= text);
    spelling_splits(text, 0, ahead, said + "\n"@);
    spelling_splits(text, pos, said, "\n"@);
    let end = pos + said.len();
    spelled_char(text, end, "\n"@, 0);
    assert(skipped(text, end + 1) == end + 1);
    assert(peeked(text, end) is None);
    printed_calls_are_read_back(context, callee, args, ret, text, pos);
}

/// A parameter as it is printed.
pub open spec fn param_text(context: ContextView, param: Value) -> Seq<char> {
    value_name(param.id) + ": "@ + type_text(context.types, param.ty)
}

/// The parameters as they are printed.
pub open spec fn param_texts(context: ContextView, params: Seq<Value>) -> Seq<Seq<char>> {
    Seq::new(params.len(), |i: int| param_text(context, params[i]))
}

/// What printed parameters say in writing: the names and types.
pub open spec fn param_trees(context: ContextView, params: Seq<Value>) -> Seq<
    (Seq<char>, TypeTree),
> {
    Seq::new(
        params.len(),
        |i: int| (decimal(params[i].id.0 as nat), written(context.types, params[i].ty)),
    )
}

/// Whether the type of every parameter has a form.
pub open spec fn params_spellable(context: ContextView, params: Seq<Value>) -> bool {
    forall|i: int| 0 <= i < params.len() ==> spellable(context.types, (#[trigger] params[i]).ty)
}

/// A list of parameters is what each is printed as, separated by commas.
pub proof fn param_list_is_commas(context: ContextView, params: Seq<Value>, n: int)
    requires
        n <= params.len(),
    ensures
        context.param_list(params, n) == comma_upto(param_texts(context, params), n),
    decreases n,
{
    if n > 1 {
        param_list_is_commas(context, params, n - 1);
    }
}

/// One parameter is read back, where a comma or a bracket follows.
pub proof fn param_is_read(context: ContextView, text: Seq<char>, pos: int, start: int, param: Value)
    requires
        table_wf(context.types),
        spellable(context.types, param.ty),
        0 <= pos,
        start == pos || start == pos + 1 && pos < text.len() && is_space(text[pos]),
        spells_at(text, start, param_text(context, param)),
        ({
            let end = start + param_text(context, param).len();
            end < text.len() && (text[end] == ',' || text[end] == ')')
        }),
    ensures
        param_at(text, pos) == Ok::<((Seq<char>, TypeTree), int), (int, ErrorView)>(
            (
                (decimal(param.id.0 as nat), written(context.types, param.ty)),
                start + param_text(context, param).len(),
            ),
        ),
{
    reveal_strlit("%");
    reveal_strlit(": ");
    reveal_strlit(":");
    let name = value_name(param.id);
    let digits = decimal(param.id.0 as nat);
    let ty = type_text(context.types, param.ty);
    assert(param_text(context, param) =~= name + (": "@ + ty));
    spelling_splits(text, start, name, ": "@ + ty);
    let p = start + name.len();
    spelling_splits(text, p, ": "@, ty);
    spelled_char(text, p, ": "@, 0);
    spelled_char(text, p, ": "@, 1);
    spelling_splits(text, start, "%"@, digits);
    spelled_char(text, start, "%"@, 0);
    number_is_named(param.id.0);
    word_is_read(text, start + 1, digits);
    assert(skipped(text, start) == start);
    assert(skipped(text, pos) == start);
    assert(sigil_at(text, pos, '%') == Some((digits, p)));
    assert(text.subrange(p, p + 1) =~= ":"@);
    token_is_read(text, p, ":"@);
    let end = p + 2 + ty.len();
    assert(skipped(text, end) == end);
    type_is_read(context.types, param.ty, text, p + 2);
    space_before_type(text, p + 1);
}

proof fn params_are_read(
    context: ContextView,
    text: Seq<char>,
    pos: int,
    start: int,
    params: Seq<Value>,
    i: int,
)
    requires
        table_wf(context.types),
        params_spellable(context, params),
        0 <= i < params.len(),
        0 <= pos,
        start == pos || start == pos + 1 && pos < text.len() && is_space(text[pos]),
        spells_at(text, start, comma_from(param_texts(context, params), i) + ")"@),
    ensures
        params_at(text, pos) == Ok::<(Seq<(Seq<char>, TypeTree)>, int), (int, ErrorView)>(
            (
                param_trees(context, params).skip(i),
                start + comma_from(param_texts(context, params), i).len() + 1,
            ),
        ),
    decreases params.len() - i,
{
    reveal_strlit(", ");
    reveal_strlit(",");
    reveal_strlit(")");
    let texts = param_texts(context, params);
    let all = param_trees(context, params);
    let here = param_text(context, params[i]);
    let p = start + here.len();
    assert(spellable(context.types, params[i].ty));
    if i + 1 < params.len() {
        let more = comma_from(texts, i + 1);
        assert(comma_from(texts, i) + ")"@ =~= here + (", "@ + (more + ")"@)));
        spelling_splits(text, start, here, ", "@ + (more + ")"@));
        spelling_splits(text, p, ", "@, more + ")"@);
        comma_is_read(text, p);
        other_token(text, p, ',', ")"@);
        param_is_read(context, text, pos, start, params[i]);
        params_are_read(context, text, p + 1, p + 2, params, i + 1);
        assert(all.skip(i) =~= seq![all[i]] + all.skip(i + 1));
    } else {
        assert(comma_from(texts, i) + ")"@ =~= here + ")"@);
        spelling_splits(text, start, here, ")"@);
        spelled_char(text, p, ")"@, 0);
        token_is_read(text, p, ")"@);
        param_is_read(context, text, pos, start, params[i]);
        assert(all.skip(i) =~= seq![all[i]]);
    }
}

/// What a function gives, where its header says so.
pub open spec fn func_gives(context: ContextView, op: OpId) -> Option<TypeId> {
    match context.type_attr(op, "ret_type"@) {
        Some(ty) => if context.types[ty.0 as int] == TypeView::Unit {
            None
        } else {
            Some(ty)
        },
        None => None,
    }
}

/// A function is read back from its printed header, behind its mnemonic, and the
/// body that follows: its name, its parameters with their types, and what it
/// gives.
#[verifier::spinoff_prover]
#[verifier::rlimit(60)]
pub proof fn printed_functions_are_read_back(
    context: ContextView,
    op: OpId,
    printed: Seq<char>,
    body: (int, int),
    end: int,
)
    requires
        table_wf(context.types),
        is_word(context.builtin_func_name(op)),
        params_spellable(context, context.region_ports(context.ir.op(op)->0.regions[0])),
        func_gives(context, op) matches Some(ty) ==> spellable(context.types, ty),
        ({
            let header = context.builtin_func_header(op);
            &&& arrow_ends(header + printed, header.len() as int)
            &&& region_at(header + printed, header.len() as int) == Ok::<
                ((int, int), int),
                (int, ErrorView),
            >((body, end))
        }),
    ensures
        func_at(context.builtin_func_header(op) + printed, 4) == Ok::<
            (FuncTree, int),
            (int, ErrorView),
        >(
            (
                FuncTree {
                    name: context.builtin_func_name(op),
                    params: param_trees(
                        context,
                        context.region_ports(context.ir.op(op)->0.regions[0]),
                    ),
                    ret: arrow_tree(context, func_gives(context, op)),
                    body,
                },
                end,
            ),
        ),
{
    reveal_strlit("func @");
    reveal_strlit("func ");
    reveal_strlit("@");
    reveal_strlit("(");
    reveal_strlit(")");
    let params = context.region_ports(context.ir.op(op)->0.regions[0]);
    let name = context.builtin_func_name(op);
    let header = context.builtin_func_header(op);
    let text = header + printed;
    let list = context.param_list(params, params.len() as int);
    let ret = func_gives(context, op);
    let arrow = arrow_text(context, ret);
    let rest = "("@ + (list + ")"@) + arrow;
    assert(header =~= "func @"@ + (name + ("("@ + ((list + ")"@) + arrow))));
    assert(text.subrange(0, header.len() as int) =~= header);
    spelling_splits(text, 0, "func @"@, name + ("("@ + ((list + ")"@) + arrow)));
    spelled_char(text, 0, "func @"@, 4);
    spelled_char(text, 0, "func @"@, 5);
    spelling_splits(text, 6, name, "("@ + ((list + ")"@) + arrow));
    let p = (6 + name.len()) as int;
    spelling_splits(text, p, "("@, (list + ")"@) + arrow);
    spelled_char(text, p, "("@, 0);
    spelling_splits(text, p + 1, list + ")"@, arrow);
    word_is_read(text, 6, name);
    assert(skipped(text, 5) == 5);
    assert(skipped(text, 4) == 5);
    assert(sigil_at(text, 4, '@') == Some((name, p)));
    token_is_read(text, p, "("@);
    let q = p + 2 + list.len();
    if params.len() == 0 {
        assert(list =~= Seq::<char>::empty());
        assert(list + ")"@ =~= ")"@);
        token_is_read(text, p + 1, ")"@);
        assert(param_trees(context, params) =~= Seq::<(Seq<char>, TypeTree)>::empty());
    } else {
        param_list_is_commas(context, params, params.len() as int);
        commas_agree(param_texts(context, params), 1);
        assert(list =~= comma_from(param_texts(context, params), 0));
        starts_with_a_value(context, params);
        spelled_char(text, p + 1, list + ")"@, 0);
        other_token(text, p + 1, '%', ")"@);
        params_are_read(context, text, p + 1, p + 1, params, 0);
        assert(param_trees(context, params).skip(0) =~= param_trees(context, params));
    }
    printed_results_are_read_back(context, ret, text, q);
}

proof fn starts_with_a_value(context: ContextView, params: Seq<Value>)
    requires
        params.len() > 0,
    ensures
        comma_from(param_texts(context, params), 0).len() > 0,
        comma_from(param_texts(context, params), 0)[0] == '%',
{
    reveal_strlit("%");
    assert(value_name(params[0].id)[0] == '%');
    assert(param_text(context, params[0])[0] == '%');
}

} // verus!

//! That printed branches are read back.
use vstd::prelude::*;
use vstd::string::*;
use crate::context::ContextView;
use crate::dependency::value_list;
use crate::dependency::value_name;
use crate::dialects::builtin::control::successor_text;
use crate::dialects::builtin::float::is_space;
use crate::dialects::builtin::syntax::all_digits;
use crate::dialects::builtin::syntax::block_index_at;
use crate::dialects::builtin::syntax::cond_br_at;
use crate::dialects::builtin::syntax::id_at;
use crate::dialects::builtin::syntax::ids_at;
use crate::dialects::builtin::syntax::label_number;
use crate::dialects::builtin::syntax::named_number;
use crate::dialects::builtin::syntax::successor_at;
use crate::dialects::builtin::syntax::typed_ids_at;
use crate::dialects::builtin::syntax::CondBranchTree;
use crate::dialects::builtin::syntax::SuccessorTree;
use crate::error::ErrorView;
use crate::ids::BlockId;
use crate::ids::TypeId;
use crate::ids::ValueId;
use crate::ir_formatter::FormatView;
use crate::parse::lists::type_run_at;
use crate::parse::round_trip::is_word;
use crate::parse::round_trip::other_token;
use crate::parse::round_trip::skipping_goes_on;
use crate::parse::round_trip::space_before_type;
use crate::parse::round_trip::spellable;
use crate::parse::round_trip::spelled_char;
use crate::parse::round_trip::spelling_splits;
use crate::parse::round_trip::spells_at;
use crate::parse::round_trip::token_is_read;
use crate::parse::round_trip::type_is_read;
use crate::parse::round_trip::word_is_read;
use crate::parse::round_trip::written;
use crate::parse::text::decimal_is_read_back;
use crate::parse::text::is_digit;
use crate::parse::text::is_name;
use crate::parse::text::peeked;
use crate::parse::text::sigil_at;
use crate::parse::text::skipped;
use crate::parse::text::token_at;
use crate::parse::types::TypeTree;
use crate::text::decimal;
use crate::ty::table_wf;
use crate::ty::type_text;
use crate::ty::TypeView;

verus! {

/// The first `n` of `pieces`, separated by commas.
pub open spec fn comma_upto(pieces: Seq<Seq<char>>, n: int) -> Seq<char>
    decreases n,
{
    if n <= 0 {
        Seq::empty()
    } else if n == 1 {
        pieces[0]
    } else {
        comma_upto(pieces, n - 1) + ", "@ + pieces[n - 1]
    }
}

/// `pieces` from `i` on, separated by commas.
pub open spec fn comma_from(pieces: Seq<Seq<char>>, i: int) -> Seq<char>
    decreases pieces.len() - i,
{
    if i < 0 || i >= pieces.len() {
        Seq::empty()
    } else {
        pieces[i] + if i + 1 < pieces.len() {
            ", "@ + comma_from(pieces, i + 1)
        } else {
            Seq::empty()
        }
    }
}

/// Separated pieces, cut anywhere, are what stands before the cut and after it.
pub proof fn commas_agree(pieces: Seq<Seq<char>>, k: int)
    requires
        1 <= k <= pieces.len(),
    ensures
        comma_upto(pieces, pieces.len() as int) == comma_upto(pieces, k) + if k < pieces.len() {
            ", "@ + comma_from(pieces, k)
        } else {
            Seq::empty()
        },
    decreases pieces.len() - k,
{
    if k < pieces.len() {
        commas_agree(pieces, k + 1);
        let rest = if k + 1 < pieces.len() {
            ", "@ + comma_from(pieces, k + 1)
        } else {
            Seq::<char>::empty()
        };
        assert(comma_upto(pieces, k + 1) + rest =~= comma_upto(pieces, k) + (", "@ + comma_from(
            pieces,
            k,
        )));
    } else {
        assert(comma_upto(pieces, k) + Seq::<char>::empty() =~= comma_upto(pieces, k));
    }
}

/// The names of `values`.
pub open spec fn names_of(values: Seq<ValueId>) -> Seq<Seq<char>> {
    Seq::new(values.len(), |i: int| value_name(values[i]))
}

/// A list of values is their names, separated by commas.
pub proof fn value_list_is_commas(values: Seq<ValueId>)
    ensures
        value_list(values) == comma_upto(names_of(values), values.len() as int),
    decreases values.len(),
{
    if values.len() > 1 {
        let fewer = values.drop_last();
        value_list_is_commas(fewer);
        same_commas(names_of(fewer), names_of(values), fewer.len() as int);
    }
}

proof fn same_commas(a: Seq<Seq<char>>, b: Seq<Seq<char>>, n: int)
    requires
        n <= a.len(),
        n <= b.len(),
        forall|i: int| 0 <= i < n ==> a[i] == b[i],
    ensures
        comma_upto(a, n) == comma_upto(b, n),
    decreases n,
{
    if n > 1 {
        same_commas(a, b, n - 1);
    }
}

/// The texts of the types of `list`.
pub open spec fn texts_of(types: Seq<TypeView>, list: Seq<TypeId>) -> Seq<Seq<char>> {
    Seq::new(list.len(), |i: int| type_text(types, list[i]))
}

/// A list of types is their texts, separated by commas.
pub proof fn type_names_are_commas(context: ContextView, list: Seq<TypeId>, n: int)
    requires
        n <= list.len(),
    ensures
        context.type_names(list, n) == comma_upto(texts_of(context.types, list), n),
    decreases n,
{
    if n > 0 {
        type_names_are_commas(context, list, n - 1);
        if n == 1 {
            assert(context.type_names(list, 1) =~= type_text(context.types, list[0]));
        }
    }
}

/// A number is a name, read as the number.
pub proof fn number_is_named(n: u32)
    ensures
        is_word(decimal(n as nat)),
        named_number(decimal(n as nat)) == Some(n),
{
    decimal_is_read_back(n as nat);
    let digits = decimal(n as nat);
    assert forall|i: int| 0 <= i < digits.len() implies is_name(#[trigger] digits[i]) by {
        assert(is_digit(digits[i]));
    }
    assert(all_digits(digits));
}

/// A value is read back where its name ends.
pub proof fn id_is_read(text: Seq<char>, pos: int, start: int, value: ValueId, named: bool)
    requires
        0 <= pos,
        start == pos || start == pos + 1 && pos < text.len() && is_space(text[pos]),
        spells_at(text, start, value_name(value)),
        ({
            let end = start + value_name(value).len();
            end == text.len() || !is_name(text[end])
        }),
    ensures
        id_at(text, pos, named) == Ok::<(ValueId, int), (int, ErrorView)>(
            (value, start + value_name(value).len()),
        ),
{
    reveal_strlit("%");
    number_is_named(value.0);
    let digits = decimal(value.0 as nat);
    spelling_splits(text, start, "%"@, digits);
    spelled_char(text, start, "%"@, 0);
    word_is_read(text, start + 1, digits);
    assert(skipped(text, start) == start);
    assert(skipped(text, pos) == start);
    assert(sigil_at(text, pos, '%') == Some((digits, start + 1 + digits.len())));
}

/// The values from the one at `i` on are read back from their names.
pub proof fn ids_are_read(
    text: Seq<char>,
    pos: int,
    start: int,
    values: Seq<ValueId>,
    i: int,
    named: bool,
)
    requires
        0 <= i < values.len(),
        0 <= pos,
        start == pos || start == pos + 1 && pos < text.len() && is_space(text[pos]),
        spells_at(text, start, comma_from(names_of(values), i)),
        ({
            let end = start + comma_from(names_of(values), i).len();
            end < text.len() && !is_name(text[end]) && peeked(text, end) != Some(',')
        }),
    ensures
        ids_at(text, pos, named) == Ok::<(Seq<ValueId>, int), (int, ErrorView)>(
            (values.skip(i), start + comma_from(names_of(values), i).len()),
        ),
    decreases values.len() - i,
{
    reveal_strlit(", ");
    reveal_strlit(",");
    let names = names_of(values);
    let here = value_name(values[i]);
    let p = start + here.len();
    if i + 1 < values.len() {
        let more = comma_from(names, i + 1);
        assert(comma_from(names, i) =~= here + (", "@ + more));
        spelling_splits(text, start, here, ", "@ + more);
        spelling_splits(text, p, ", "@, more);
        spelled_char(text, p, ", "@, 0);
        spelled_char(text, p, ", "@, 1);
        id_is_read(text, pos, start, values[i], named);
        assert(spells_at(text, p, ","@)) by {
            assert(text.subrange(p, p + 1) =~= ","@);
        }
        token_is_read(text, p, ","@);
        ids_are_read(text, p + 1, p + 2, values, i + 1, named);
        assert(values.skip(i) =~= seq![values[i]] + values.skip(i + 1));
    } else {
        assert(comma_from(names, i) =~= here);
        id_is_read(text, pos, start, values[i], named);
        let q = skipped(text, p);
        skipping_goes_on(text, p);
        if q + 1 <= text.len() && text.subrange(q, q + 1) == ","@ {
            assert(text.subrange(q, q + 1)[0] == ',');
        }
        assert(token_at(text, p, ","@) is None);
        assert(values.skip(i) =~= seq![values[i]]);
    }
}

/// What the types of `list` say in writing.
pub open spec fn trees(types: Seq<TypeView>, list: Seq<TypeId>) -> Seq<TypeTree> {
    Seq::new(list.len(), |i: int| written(types, list[i]))
}

/// The types from the one at `i` on are read back up to a closing bracket.
pub proof fn type_run_is_read(
    types: Seq<TypeView>,
    text: Seq<char>,
    pos: int,
    start: int,
    list: Seq<TypeId>,
    i: int,
)
    requires
        table_wf(types),
        0 <= i < list.len(),
        forall|k: int| 0 <= k < list.len() ==> spellable(types, #[trigger] list[k]),
        0 <= pos,
        start == pos || start == pos + 1 && pos < text.len() && is_space(text[pos]),
        spells_at(text, start, comma_from(texts_of(types, list), i) + ")"@),
    ensures
        type_run_at(text, pos) == Ok::<(Seq<TypeTree>, int), (int, ErrorView)>(
            (trees(types, list).skip(i), start + comma_from(texts_of(types, list), i).len()),
        ),
    decreases list.len() - i,
{
    reveal_strlit(", ");
    reveal_strlit(",");
    reveal_strlit(")");
    let texts = texts_of(types, list);
    let here = type_text(types, list[i]);
    let all = trees(types, list);
    let p = start + here.len();
    if i + 1 < list.len() {
        let more = comma_from(texts, i + 1);
        assert(comma_from(texts, i) + ")"@ =~= here + (", "@ + (more + ")"@)));
        spelling_splits(text, start, here, ", "@ + (more + ")"@));
        spelling_splits(text, p, ", "@, more + ")"@);
        spelled_char(text, p, ", "@, 0);
        spelled_char(text, p, ", "@, 1);
        assert(spells_at(text, p, ","@)) by {
            assert(text.subrange(p, p + 1) =~= ","@);
        }
        token_is_read(text, p, ","@);
        type_is_read(types, list[i], text, start);
        if start != pos {
            space_before_type(text, pos);
        }
        type_run_is_read(types, text, p + 1, p + 2, list, i + 1);
        assert(all.skip(i) =~= seq![all[i]] + all.skip(i + 1));
    } else {
        assert(comma_from(texts, i) + ")"@ =~= here + ")"@);
        spelling_splits(text, start, here, ")"@);
        spelled_char(text, p, ")"@, 0);
        token_is_read(text, p, ")"@);
        other_token(text, p, ')', ","@);
        type_is_read(types, list[i], text, start);
        if start != pos {
            space_before_type(text, pos);
        }
        assert(all.skip(i) =~= seq![all[i]]);
    }
}

/// Whether what stands at `p` cannot go on with a successor that ends there.
pub open spec fn successor_ends(text: Seq<char>, p: int) -> bool {
    &&& 0 <= p <= text.len()
    &&& p == text.len() || !is_name(text[p])
    &&& peeked(text, p) != Some('(')
}

/// Whether each of `args` is a live value whose type has a form.
pub open spec fn args_spellable(context: ContextView, args: Seq<ValueId>) -> bool {
    forall|i: int|
        0 <= i < args.len() ==> context.ir.value(#[trigger] args[i]) is Some && spellable(
            context.types,
            context.type_of(args[i]),
        )
}

/// What a successor says in writing.
pub open spec fn successor_tree(
    fmt: FormatView,
    context: ContextView,
    block: BlockId,
    args: Seq<ValueId>,
) -> SuccessorTree {
    SuccessorTree {
        index: fmt.block_number(block),
        args,
        types: Seq::new(args.len(), |i: int| written(context.types, context.type_of(args[i]))),
    }
}

/// A printed successor is read back, wherever it stands, as long as what follows
/// cannot go on with it: the number of its block, the values it forwards and
/// their types.
#[verifier::spinoff_prover]
#[verifier::rlimit(60)]
pub proof fn printed_successors_are_read_back(
    fmt: FormatView,
    context: ContextView,
    block: BlockId,
    args: Seq<ValueId>,
    text: Seq<char>,
    pos: int,
)
    requires
        table_wf(context.types),
        args_spellable(context, args),
        spells_at(text, pos, successor_text(fmt, context, block, args)),
        successor_ends(text, pos + successor_text(fmt, context, block, args).len()),
    ensures
        successor_at(text, pos) == Ok::<(SuccessorTree, int), (int, ErrorView)>(
            (
                successor_tree(fmt, context, block, args),
                pos + successor_text(fmt, context, block, args).len(),
            ),
        ),
{
    reveal_strlit("^bb");
    reveal_strlit("^");
    reveal_strlit("bb");
    reveal_strlit("(");
    reveal_strlit(")");
    reveal_strlit(" : ");
    reveal_strlit(":");
    let n = fmt.block_number(block);
    number_is_named(n);
    let digits = decimal(n as nat);
    let label = "bb"@ + digits;
    let whole = successor_text(fmt, context, block, args);
    let p = pos + 1 + label.len();
    assert(is_word(label)) by {
        assert forall|i: int| 0 <= i < label.len() implies is_name(#[trigger] label[i]) by {
            if i >= 2 {
                assert(label[i] == digits[i - 2]);
            }
        }
    }
    assert(label.skip(2) =~= digits);
    assert(label_number(label) == Some(n));
    let tree = successor_tree(fmt, context, block, args);
    if args.len() == 0 {
        assert(whole =~= "^"@ + label);
        spelling_splits(text, pos, "^"@, label);
        spelled_char(text, pos, "^"@, 0);
        word_is_read(text, pos + 1, label);
        assert(block_index_at(text, pos) == Some((n, p)));
        let q = skipped(text, p);
        skipping_goes_on(text, p);
        if q + 1 <= text.len() && text.subrange(q, q + 1) == "("@ {
            assert(text.subrange(q, q + 1)[0] == '(');
        }
        assert(token_at(text, p, "("@) is None);
        assert(tree.args =~= Seq::<ValueId>::empty());
        assert(tree.types =~= Seq::<TypeTree>::empty());
    } else {
        let list = context.types_of(args);
        let values = value_list(args);
        let names = context.type_names(list, args.len() as int);
        let types = context.types;
        assert(whole =~= ("^"@ + label) + ("("@ + (values + (" : "@ + (names + ")"@)))));
        spelling_splits(text, pos, "^"@ + label, "("@ + (values + (" : "@ + (names + ")"@))));
        spelling_splits(text, pos, "^"@, label);
        spelled_char(text, pos, "^"@, 0);
        spelling_splits(text, p, "("@, values + (" : "@ + (names + ")"@)));
        spelled_char(text, p, "("@, 0);
        token_is_read(text, p, "("@);
        word_is_read(text, pos + 1, label);
        assert(block_index_at(text, pos) == Some((n, p)));
        let a = p + 1;
        spelling_splits(text, a, values, " : "@ + (names + ")"@));
        let b = a + values.len();
        spelling_splits(text, b, " : "@, names + ")"@);
        spelled_char(text, b, " : "@, 0);
        spelled_char(text, b, " : "@, 1);
        spelled_char(text, b, " : "@, 2);
        assert(skipped(text, b + 1) == b + 1);
        assert(skipped(text, b) == b + 1);
        value_list_is_commas(args);
        commas_agree(names_of(args), 1);
        assert(values =~= comma_from(names_of(args), 0));
        ids_are_read(text, a, a, args, 0, true);
        assert(args.skip(0) =~= args);
        assert(spells_at(text, b + 1, ":"@)) by {
            assert(text.subrange(b + 1, b + 2) =~= ":"@);
        }
        token_is_read(text, b + 1, ":"@);
        assert(token_at(text, b, ":"@) == Some(b + 2));
        type_names_are_commas(context, list, list.len() as int);
        commas_agree(texts_of(types, list), 1);
        assert(names =~= comma_from(texts_of(types, list), 0));
        assert forall|k: int| 0 <= k < list.len() implies spellable(types, #[trigger] list[k]) by {
            assert(context.ir.value(args[k]) is Some);
        }
        type_run_is_read(types, text, b + 2, b + 3, list, 0);
        assert(trees(types, list).skip(0) =~= tree.types);
        let c = b + 3 + names.len();
        spelling_splits(text, b + 3, names, ")"@);
        token_is_read(text, c, ")"@);
        assert(typed_ids_at(text, a, true) == Ok::<
            ((Seq<ValueId>, Seq<TypeTree>), int),
            (int, ErrorView),
        >(((args, tree.types), c + 1)));
    }
}

proof fn space_before_successor(text: Seq<char>, pos: int)
    requires
        0 <= pos < text.len(),
        is_space(text[pos]),
        successor_at(text, pos + 1) is Ok,
    ensures
        successor_at(text, pos) == successor_at(text, pos + 1),
{
    assert(skipped(text, pos) == skipped(text, pos + 1));
}

/// A printed branch is read back behind its mnemonic.
pub proof fn printed_branches_are_read_back(
    fmt: FormatView,
    context: ContextView,
    dest: BlockId,
    args: Seq<ValueId>,
)
    requires
        table_wf(context.types),
        args_spellable(context, args),
    ensures
        ({
            let successor = successor_text(fmt, context, dest, args);
            successor_at("br "@ + successor + "\n"@, 2) == Ok::<
                (SuccessorTree, int),
                (int, ErrorView),
            >((successor_tree(fmt, context, dest, args), (3 + successor.len()) as int))
        }),
{
    reveal_strlit("br ");
    reveal_strlit("\n");
    let successor = successor_text(fmt, context, dest, args);
    let text = "br "@ + successor + "\n"@;
    assert(text.subrange(3, (3 + successor.len()) as int) =~= successor);
    let end: int = 3 + successor.len() as int;
    assert(text[end] == '\n');
    assert(skipped(text, end + 1) == end + 1);
    assert(peeked(text, end) is None);
    printed_successors_are_read_back(fmt, context, dest, args, text, 3);
    assert(text[2] == ' ');
    space_before_successor(text, 2);
}

/// A printed conditional branch is read back behind its mnemonic.
#[verifier::spinoff_prover]
#[verifier::rlimit(60)]
pub proof fn printed_conditional_branches_are_read_back(
    fmt: FormatView,
    context: ContextView,
    condition: ValueId,
    true_dest: BlockId,
    true_args: Seq<ValueId>,
    false_dest: BlockId,
    false_args: Seq<ValueId>,
)
    requires
        table_wf(context.types),
        args_spellable(context, true_args),
        args_spellable(context, false_args),
    ensures
        ({
            let first = successor_text(fmt, context, true_dest, true_args);
            let second = successor_text(fmt, context, false_dest, false_args);
            let text = "cond_br "@ + value_name(condition) + ", "@ + first + ", "@ + (second
                + "\n"@);
            cond_br_at(text, 7) == Ok::<(CondBranchTree, int), (int, ErrorView)>(
                (
                    CondBranchTree {
                        condition,
                        true_dest: successor_tree(fmt, context, true_dest, true_args),
                        false_dest: successor_tree(fmt, context, false_dest, false_args),
                    },
                    text.len() - 1,
                ),
            )
        }),
{
    reveal_strlit("cond_br ");
    reveal_strlit(", ");
    reveal_strlit(",");
    reveal_strlit("\n");
    let first = successor_text(fmt, context, true_dest, true_args);
    let second = successor_text(fmt, context, false_dest, false_args);
    let name = value_name(condition);
    let text = "cond_br "@ + name + ", "@ + first + ", "@ + (second + "\n"@);
    assert(text =~= "cond_br "@ + (name + (", "@ + (first + (", "@ + (second + "\n"@))))));
    assert(text.subrange(0, text.len() as int) =~= text);
    spelling_splits(text, 0, "cond_br "@, name + (", "@ + (first + (", "@ + (second + "\n"@)))));
    spelled_char(text, 0, "cond_br "@, 7);
    let a: int = 8 + name.len() as int;
    spelling_splits(text, 8, name, ", "@ + (first + (", "@ + (second + "\n"@))));
    spelling_splits(text, a, ", "@, first + (", "@ + (second + "\n"@)));
    let b: int = a + 2 + first.len();
    spelling_splits(text, a + 2, first, ", "@ + (second + "\n"@));
    spelling_splits(text, b, ", "@, second + "\n"@);
    let end: int = b + 2 + second.len();
    spelling_splits(text, b + 2, second, "\n"@);
    spelled_char(text, end, "\n"@, 0);
    comma_is_read(text, a);
    comma_is_read(text, b);
    id_is_read(text, 7, 8, condition, true);
    printed_successors_are_read_back(fmt, context, true_dest, true_args, text, a + 2);
    space_before_successor(text, a + 1);
    assert(skipped(text, end + 1) == end + 1);
    assert(peeked(text, end) is None);
    printed_successors_are_read_back(fmt, context, false_dest, false_args, text, b + 2);
    space_before_successor(text, b + 1);
}

/// A comma is read where one stands.
pub proof fn comma_is_read(text: Seq<char>, p: int)
    requires
        spells_at(text, p, ", "@),
    ensures
        token_at(text, p, ","@) == Some(p + 1),
        peeked(text, p) == Some(','),
        text[p] == ',',
        text[p + 1] == ' ',
        p + 1 < text.len(),
{
    reveal_strlit(", ");
    reveal_strlit(",");
    spelled_char(text, p, ", "@, 0);
    spelled_char(text, p, ", "@, 1);
    assert(text.subrange(p, p + 1) =~= ","@);
    token_is_read(text, p, ","@);
}

} // verus!

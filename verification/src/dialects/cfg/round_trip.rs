//! That printed successors are read back.
use vstd::prelude::*;
use vstd::string::*;
use crate::context::ContextView;
use crate::dependency::value_list;
use crate::dependency::value_name;
use crate::dialects::builtin::float::is_space;
use crate::dialects::builtin::round_trip::args_spellable;
use crate::dialects::builtin::round_trip::comma_from;
use crate::dialects::builtin::round_trip::comma_is_read;
use crate::dialects::builtin::round_trip::commas_agree;
use crate::dialects::builtin::round_trip::names_of;
use crate::dialects::builtin::round_trip::number_is_named;
use crate::dialects::builtin::round_trip::successor_ends;
use crate::dialects::builtin::round_trip::texts_of;
use crate::dialects::builtin::round_trip::trees;
use crate::dialects::builtin::round_trip::type_names_are_commas;
use crate::dialects::builtin::round_trip::value_list_is_commas;
use crate::dialects::cfg::cfg_successor;
use crate::dialects::cfg::syntax::cond_br_at;
use crate::dialects::cfg::syntax::states_at;
use crate::dialects::cfg::syntax::successor_at;
use crate::dialects::cfg::syntax::type_group_at;
use crate::dialects::cfg::syntax::values_at;
use crate::dialects::cfg::syntax::CondBranchTree;
use crate::dialects::cfg::syntax::SuccessorTree;
use crate::error::ErrorView;
use crate::ids::BlockId;
use crate::ids::TypeId;
use crate::ids::ValueId;
use crate::ir_formatter::FormatView;
use crate::parse::lists::names_at;
use crate::parse::round_trip::is_word;
use crate::parse::round_trip::other_token;
use crate::parse::round_trip::skipping_goes_on;
use crate::parse::round_trip::space_before_type;
use crate::parse::round_trip::spellable;
use crate::parse::round_trip::spelled_char;
use crate::parse::round_trip::spelling_splits;
use crate::parse::round_trip::spells_at;
use crate::parse::round_trip::token_is_read;
use crate::parse::round_trip::type_is_read;
use crate::parse::round_trip::word_is_read;
use crate::parse::text::is_name;
use crate::parse::text::past;
use crate::parse::text::peeked;
use crate::parse::text::sigil_at;
use crate::parse::text::skipped;
use crate::parse::text::token_at;
use crate::parse::text::value_ref;
use crate::parse::types::TypeTree;
use crate::text::decimal;
use crate::ty::table_wf;
use crate::ty::type_text;
use crate::ty::TypeView;

verus! {

/// The numbers `values` are named by.
pub open spec fn numbers_of(values: Seq<ValueId>) -> Seq<Seq<char>> {
    Seq::new(values.len(), |i: int| decimal(values[i].0 as nat))
}

/// A value is read back by its number where its name ends.
pub proof fn name_is_read(text: Seq<char>, pos: int, start: int, value: ValueId)
    requires
        0 <= pos,
        start == pos || start == pos + 1 && pos < text.len() && is_space(text[pos]),
        spells_at(text, start, value_name(value)),
        ({
            let end = start + value_name(value).len();
            end == text.len() || !is_name(text[end])
        }),
    ensures
        value_ref(text, pos) == Ok::<(Seq<char>, int), (int, ErrorView)>(
            (decimal(value.0 as nat), start + value_name(value).len()),
        ),
        peeked(text, pos) == Some('%'),
{
    reveal_strlit("%");
    number_is_named(value.0);
    let digits = decimal(value.0 as nat);
    spelling_splits(text, start, "%"@, digits);
    spelled_char(text, start, "%"@, 0);
    word_is_read(text, start + 1, digits);
    assert(skipped(text, start) == start);
    assert(skipped(text, pos) == start);
    assert(sigil_at(text, pos, '%') == Some((digits, start + 1 + digits.len())));
}

/// The values from the one at `i` on are read back by their numbers.
pub proof fn names_are_read(text: Seq<char>, pos: int, start: int, values: Seq<ValueId>, i: int)
    requires
        0 <= i < values.len(),
        0 <= pos,
        start == pos || start == pos + 1 && pos < text.len() && is_space(text[pos]),
        spells_at(text, start, comma_from(names_of(values), i)),
        ({
            let end = start + comma_from(names_of(values), i).len();
            end < text.len() && !is_name(text[end]) && peeked(text, end) != Some(',')
        }),
    ensures
        names_at(text, pos) == Ok::<(Seq<Seq<char>>, int), (int, ErrorView)>(
            (numbers_of(values).skip(i), start + comma_from(names_of(values), i).len()),
        ),
        peeked(text, pos) == Some('%'),
    decreases values.len() - i,
{
    reveal_strlit(", ");
    reveal_strlit(",");
    let names = names_of(values);
    let all = numbers_of(values);
    let here = value_name(values[i]);
    let p = start + here.len();
    if i + 1 < values.len() {
        let more = comma_from(names, i + 1);
        assert(comma_from(names, i) =~= here + (", "@ + more));
        spelling_splits(text, start, here, ", "@ + more);
        spelling_splits(text, p, ", "@, more);
        comma_is_read(text, p);
        name_is_read(text, pos, start, values[i]);
        names_are_read(text, p + 1, p + 2, values, i + 1);
        assert(all.skip(i) =~= seq![all[i]] + all.skip(i + 1));
    } else {
        assert(comma_from(names, i) =~= here);
        name_is_read(text, pos, start, values[i]);
        no_comma(text, p);
        assert(all.skip(i) =~= seq![all[i]]);
    }
}

proof fn no_comma(text: Seq<char>, p: int)
    requires
        0 <= p <= text.len(),
        peeked(text, p) != Some(','),
    ensures
        token_at(text, p, ","@) is None,
{
    reveal_strlit(",");
    let q = skipped(text, p);
    skipping_goes_on(text, p);
    if q + 1 <= text.len() && text.subrange(q, q + 1) == ","@ {
        assert(text.subrange(q, q + 1)[0] == ',');
    }
}

/// Whether a group of types ends at `p`: with a bracket, or with a comma and
/// something that is no type.
spec fn group_ends(text: Seq<char>, p: int) -> bool {
    &&& 0 <= p < text.len()
    &&& text[p] == ')' || (text[p] == ',' && peeked(text, p + 1) != Some('!'))
}

/// The types from the one at `i` on are read back up to where the group ends.
proof fn type_group_is_read(
    types: Seq<TypeView>,
    text: Seq<char>,
    pos: int,
    start: int,
    list: Seq<TypeId>,
    i: int,
)
    requires
        table_wf(types),
        0 <= i < list.len(),
        forall|k: int| 0 <= k < list.len() ==> spellable(types, #[trigger] list[k]),
        0 <= pos,
        start == pos || start == pos + 1 && pos < text.len() && is_space(text[pos]),
        spells_at(text, start, comma_from(texts_of(types, list), i)),
        group_ends(text, start + comma_from(texts_of(types, list), i).len()),
    ensures
        type_group_at(text, pos) == Ok::<(Seq<TypeTree>, int), (int, ErrorView)>(
            (trees(types, list).skip(i), start + comma_from(texts_of(types, list), i).len()),
        ),
        peeked(text, pos) == Some('!'),
    decreases list.len() - i,
{
    reveal_strlit(", ");
    reveal_strlit(",");
    reveal_strlit("!");
    let texts = texts_of(types, list);
    let here = type_text(types, list[i]);
    let all = trees(types, list);
    let p = start + here.len();
    assert(here[0] == '!');
    if i + 1 < list.len() {
        let more = comma_from(texts, i + 1);
        assert(comma_from(texts, i) =~= here + (", "@ + more));
        spelling_splits(text, start, here, ", "@ + more);
        spelling_splits(text, p, ", "@, more);
        comma_is_read(text, p);
        spelled_char(text, start, here, 0);
        type_is_read(types, list[i], text, start);
        if start != pos {
            space_before_type(text, pos);
        }
        type_group_is_read(types, text, p + 1, p + 2, list, i + 1);
        assert(all.skip(i) =~= seq![all[i]] + all.skip(i + 1));
    } else {
        assert(comma_from(texts, i) =~= here);
        spelled_char(text, start, here, 0);
        assert(skipped(text, p) == p);
        type_is_read(types, list[i], text, start);
        if start != pos {
            space_before_type(text, pos);
        }
        if text[p] == ',' {
            assert(text.subrange(p, p + 1) =~= ","@);
            assert(token_at(text, p, ","@) == Some(p + 1));
        } else {
            other_token(text, p, ')', ","@);
        }
        assert(all.skip(i) =~= seq![all[i]]);
    }
    assert(skipped(text, start) == start);
    assert(skipped(text, pos) == start);
}

/// Values with their types are read back up to where the group ends.
proof fn typed_values_are_read(
    context: ContextView,
    values: Seq<ValueId>,
    text: Seq<char>,
    pos: int,
)
    requires
        table_wf(context.types),
        args_spellable(context, values),
        spells_at(text, pos, context.typed_values(values)),
        group_ends(text, pos + context.typed_values(values).len()) || values.len() == 0 && 0
            <= pos < text.len() && peeked(text, pos) != Some('%'),
    ensures
        values_at(text, pos) == Ok::<((Seq<Seq<char>>, Seq<TypeTree>), int), (int, ErrorView)>(
            (
                (numbers_of(values), trees(context.types, context.types_of(values))),
                pos + context.typed_values(values).len(),
            ),
        ),
{
    reveal_strlit(" : ");
    reveal_strlit(":");
    let list = context.types_of(values);
    let types = context.types;
    if values.len() == 0 {
        assert(numbers_of(values) =~= Seq::<Seq<char>>::empty());
        assert(trees(types, list) =~= Seq::<TypeTree>::empty());
        if group_ends(text, pos) {
            assert(skipped(text, pos) == pos);
        }
    } else {
        let names = value_list(values);
        let said = context.type_names(list, values.len() as int);
        assert(context.typed_values(values) =~= names + (" : "@ + said));
        spelling_splits(text, pos, names, " : "@ + said);
        let b = pos + names.len();
        spelling_splits(text, b, " : "@, said);
        spelled_char(text, b, " : "@, 0);
        spelled_char(text, b, " : "@, 1);
        spelled_char(text, b, " : "@, 2);
        assert(skipped(text, b + 1) == b + 1);
        assert(skipped(text, b) == b + 1);
        value_list_is_commas(values);
        commas_agree(names_of(values), 1);
        assert(names =~= comma_from(names_of(values), 0));
        names_are_read(text, pos, pos, values, 0);
        assert(numbers_of(values).skip(0) =~= numbers_of(values));
        assert(text.subrange(b + 1, b + 2) =~= ":"@);
        assert(token_at(text, b, ":"@) == Some(b + 2));
        type_names_are_commas(context, list, list.len() as int);
        commas_agree(texts_of(types, list), 1);
        assert(said =~= comma_from(texts_of(types, list), 0));
        assert forall|k: int| 0 <= k < list.len() implies spellable(types, #[trigger] list[k]) by {
            assert(context.ir.value(values[k]) is Some);
        }
        type_group_is_read(types, text, b + 2, b + 3, list, 0);
        assert(trees(types, list).skip(0) =~= trees(types, list));
    }
}

/// States are read back behind the comma that may stand before them.
proof fn states_are_read(
    context: ContextView,
    states: Seq<ValueId>,
    follows: bool,
    text: Seq<char>,
    pos: int,
)
    requires
        spells_at(text, pos, context.state_group(states, follows) + ")"@),
    ensures
        states_at(text, past(text, pos, ","@)) == Ok::<(Seq<Seq<char>>, int), (int, ErrorView)>(
            (numbers_of(states), pos + context.state_group(states, follows).len()),
        ),
        token_at(text, pos + context.state_group(states, follows).len(), ")"@) == Some(
            pos + context.state_group(states, follows).len() + 1,
        ),
{
    reveal_strlit(", state(");
    reveal_strlit("state(");
    reveal_strlit("state");
    reveal_strlit("(");
    reveal_strlit(")");
    reveal_strlit(",");
    let group = context.state_group(states, follows);
    let end = pos + group.len();
    spelling_splits(text, pos, group, ")"@);
    spelled_char(text, end, ")"@, 0);
    token_is_read(text, end, ")"@);
    if states.len() == 0 {
        assert(numbers_of(states) =~= Seq::<Seq<char>>::empty());
        other_token(text, pos, ')', ","@);
        other_token(text, pos, ')', "state"@);
    } else {
        let list = value_list(states);
        let head = if follows {
            ", state("@
        } else {
            "state("@
        };
        assert(group =~= head + (list + ")"@));
        spelling_splits(text, pos, head, list + ")"@);
        let a = pos + head.len();
        let s = if follows {
            pos + 2
        } else {
            pos
        };
        if follows {
            spelled_char(text, pos, head, 0);
            spelled_char(text, pos, head, 1);
            spelled_char(text, pos, head, 2);
            assert(text.subrange(pos, pos + 1) =~= ","@);
            token_is_read(text, pos, ","@);
            assert(skipped(text, pos + 2) == pos + 2);
            assert(skipped(text, pos + 1) == pos + 2);
        } else {
            spelled_char(text, pos, head, 0);
            other_token(text, pos, 's', ","@);
        }
        assert(text.subrange(s, s + 5) =~= "state"@) by {
            assert forall|k: int| 0 <= k < 5 implies text[s + k] == "state"@[k] by {
                spelled_char(text, pos, head, s - pos + k);
            }
        }
        assert(skipped(text, s) == s);
        assert(skipped(text, past(text, pos, ","@)) == s);
        assert(token_at(text, past(text, pos, ","@), "state"@) == Some(s + 5));
        spelled_char(text, pos, head, head.len() - 1);
        assert(text.subrange(s + 5, s + 6) =~= "("@);
        token_is_read(text, s + 5, "("@);
        spelling_splits(text, a, list, ")"@);
        let b = a + list.len();
        spelled_char(text, b, ")"@, 0);
        token_is_read(text, b, ")"@);
        value_list_is_commas(states);
        commas_agree(names_of(states), 1);
        assert(list =~= comma_from(names_of(states), 0));
        names_are_read(text, a, a, states, 0);
        assert(numbers_of(states).skip(0) =~= numbers_of(states));
    }
}

/// What a successor says in writing: the label of its block, the values it hands
/// over with their types, and the states.
pub open spec fn successor_tree(
    fmt: FormatView,
    context: ContextView,
    block: BlockId,
    args: Seq<ValueId>,
) -> SuccessorTree {
    let values = context.filtered(args, false);
    SuccessorTree {
        label: "bb"@ + decimal(fmt.block_number(block) as nat),
        values: numbers_of(values),
        types: trees(context.types, context.types_of(values)),
        states: numbers_of(context.filtered(args, true)),
    }
}

/// A printed successor is read back, wherever it stands, as long as what follows
/// cannot go on with it.
#[verifier::spinoff_prover]
#[verifier::rlimit(60)]
pub proof fn printed_successors_are_read_back(
    fmt: FormatView,
    context: ContextView,
    block: BlockId,
    args: Seq<ValueId>,
    text: Seq<char>,
    pos: int,
)
    requires
        table_wf(context.types),
        args_spellable(context, context.filtered(args, false)),
        spells_at(text, pos, cfg_successor(fmt, context, block, args)),
        successor_ends(text, pos + cfg_successor(fmt, context, block, args).len()),
    ensures
        successor_at(text, pos) == Ok::<(SuccessorTree, int), (int, ErrorView)>(
            (
                successor_tree(fmt, context, block, args),
                pos + cfg_successor(fmt, context, block, args).len(),
            ),
        ),
{
    reveal_strlit("^bb");
    reveal_strlit("^");
    reveal_strlit("bb");
    reveal_strlit("(");
    reveal_strlit(")");
    let n = fmt.block_number(block);
    number_is_named(n);
    let digits = decimal(n as nat);
    let label = "bb"@ + digits;
    let p = pos + 1 + label.len();
    assert(is_word(label)) by {
        assert forall|i: int| 0 <= i < label.len() implies is_name(#[trigger] label[i]) by {
            if i >= 2 {
                assert(label[i] == digits[i - 2]);
            }
        }
    }
    let whole = cfg_successor(fmt, context, block, args);
    let tree = successor_tree(fmt, context, block, args);
    let values = context.filtered(args, false);
    let states = context.filtered(args, true);
    if args.len() == 0 {
        assert(whole =~= "^"@ + label);
        spelling_splits(text, pos, "^"@, label);
        spelled_char(text, pos, "^"@, 0);
        word_is_read(text, pos + 1, label);
        assert(sigil_at(text, pos, '^') == Some((label, p)));
        let q = skipped(text, p);
        skipping_goes_on(text, p);
        if q + 1 <= text.len() && text.subrange(q, q + 1) == "("@ {
            assert(text.subrange(q, q + 1)[0] == '(');
        }
        assert(token_at(text, p, "("@) is None);
        assert(tree.values =~= Seq::<Seq<char>>::empty());
        assert(tree.types =~= Seq::<TypeTree>::empty());
        assert(tree.states =~= Seq::<Seq<char>>::empty());
    } else {
        let typed = context.typed_values(values);
        let group = context.state_group(states, values.len() > 0);
        assert(whole =~= ("^"@ + label) + ("("@ + (typed + (group + ")"@))));
        spelling_splits(text, pos, "^"@ + label, "("@ + (typed + (group + ")"@)));
        spelling_splits(text, pos, "^"@, label);
        spelled_char(text, pos, "^"@, 0);
        spelling_splits(text, p, "("@, typed + (group + ")"@));
        spelled_char(text, p, "("@, 0);
        token_is_read(text, p, "("@);
        word_is_read(text, pos + 1, label);
        assert(sigil_at(text, pos, '^') == Some((label, p)));
        let a = p + 1;
        spelling_splits(text, a, typed, group + ")"@);
        let b = a + typed.len();
        group_starts(context, states, values.len() > 0, text, b);
        typed_values_are_read(context, values, text, a);
        states_are_read(context, states, values.len() > 0, text, b);
    }
}

/// What follows the values of a successor ends the group of their types.
proof fn group_starts(
    context: ContextView,
    states: Seq<ValueId>,
    follows: bool,
    text: Seq<char>,
    b: int,
)
    requires
        spells_at(text, b, context.state_group(states, follows) + ")"@),
    ensures
        follows ==> group_ends(text, b),
        !follows ==> 0 <= b < text.len() && peeked(text, b) != Some('%'),
{
    reveal_strlit(", state(");
    reveal_strlit("state(");
    reveal_strlit(")");
    let whole = context.state_group(states, follows) + ")"@;
    spelled_char(text, b, whole, 0);
    if states.len() == 0 {
        assert(whole[0] == ')');
        assert(skipped(text, b) == b);
    } else if follows {
        assert(whole[0] == ',' && whole[1] == ' ' && whole[2] == 's');
        spelled_char(text, b, whole, 1);
        spelled_char(text, b, whole, 2);
        assert(skipped(text, b + 2) == b + 2);
        assert(skipped(text, b + 1) == b + 2);
    } else {
        assert(whole[0] == 's');
        assert(skipped(text, b) == b);
    }
}

proof fn space_before_successor(text: Seq<char>, pos: int)
    requires
        0 <= pos < text.len(),
        is_space(text[pos]),
        successor_at(text, pos + 1) is Ok,
    ensures
        successor_at(text, pos) == successor_at(text, pos + 1),
{
    assert(skipped(text, pos) == skipped(text, pos + 1));
}

/// A printed branch is read back behind its mnemonic.
pub proof fn printed_branches_are_read_back(
    fmt: FormatView,
    context: ContextView,
    dest: BlockId,
    args: Seq<ValueId>,
)
    requires
        table_wf(context.types),
        args_spellable(context, context.filtered(args, false)),
    ensures
        ({
            let successor = cfg_successor(fmt, context, dest, args);
            successor_at("cfg.br "@ + successor + "\n"@, 6) == Ok::<
                (SuccessorTree, int),
                (int, ErrorView),
            >((successor_tree(fmt, context, dest, args), (7 + successor.len()) as int))
        }),
{
    reveal_strlit("cfg.br ");
    reveal_strlit("\n");
    let successor = cfg_successor(fmt, context, dest, args);
    let text = "cfg.br "@ + successor + "\n"@;
    let end: int = 7 + successor.len() as int;
    assert(text.subrange(7, end) =~= successor);
    assert(text[end] == '\n');
    assert(skipped(text, end + 1) == end + 1);
    assert(peeked(text, end) is None);
    printed_successors_are_read_back(fmt, context, dest, args, text, 7);
    assert(text[6] == ' ');
    space_before_successor(text, 6);
}

/// Where the pieces of a conditional branch stand.
#[verifier::spinoff_prover]
proof fn branch_pieces(name: Seq<char>, first: Seq<char>, second: Seq<char>, text: Seq<char>)
    requires
        text == "cfg.cond_br "@ + name + ", "@ + first + ", "@ + (second + "\n"@),
    ensures
        ({
            let a: int = 12 + name.len() as int;
            let b: int = a + 2 + first.len();
            let end: int = b + 2 + second.len();
            &&& end == text.len() - 1
            &&& text[11] == ' '
            &&& spells_at(text, 12, name)
            &&& spells_at(text, a, ", "@)
            &&& spells_at(text, a + 2, first)
            &&& spells_at(text, b, ", "@)
            &&& spells_at(text, b + 2, second)
            &&& text[end] == '\n'
        }),
{
    reveal_strlit("cfg.cond_br ");
    reveal_strlit(", ");
    reveal_strlit("\n");
    let a: int = 12 + name.len() as int;
    let b: int = a + 2 + first.len();
    assert(text.subrange(12, a) =~= name);
    assert(text.subrange(a, a + 2) =~= ", "@);
    assert(text.subrange(a + 2, b) =~= first);
    assert(text.subrange(b, b + 2) =~= ", "@);
    assert(text.subrange(b + 2, b + 2 + second.len()) =~= second);
}

/// A successor is read back behind the comma before it.
#[verifier::spinoff_prover]
proof fn comma_before_successor(
    fmt: FormatView,
    context: ContextView,
    dest: BlockId,
    args: Seq<ValueId>,
    text: Seq<char>,
    p: int,
)
    requires
        table_wf(context.types),
        args_spellable(context, context.filtered(args, false)),
        spells_at(text, p, ", "@),
        spells_at(text, p + 2, cfg_successor(fmt, context, dest, args)),
        successor_ends(text, p + 2 + cfg_successor(fmt, context, dest, args).len()),
    ensures
        token_at(text, p, ","@) == Some(p + 1),
        text[p] == ',',
        peeked(text, p) == Some(','),
        successor_at(text, p + 1) == Ok::<(SuccessorTree, int), (int, ErrorView)>(
            (
                successor_tree(fmt, context, dest, args),
                p + 2 + cfg_successor(fmt, context, dest, args).len(),
            ),
        ),
{
    comma_is_read(text, p);
    printed_successors_are_read_back(fmt, context, dest, args, text, p + 2);
    space_before_successor(text, p + 1);
}

/// A conditional branch is read where its pieces are.
#[verifier::spinoff_prover]
proof fn pieces_are_joined(
    text: Seq<char>,
    pos: int,
    a: int,
    b: int,
    end: int,
    tree: CondBranchTree,
)
    requires
        value_ref(text, pos) == Ok::<(Seq<char>, int), (int, ErrorView)>((tree.condition, a)),
        token_at(text, a, ","@) == Some(a + 1),
        successor_at(text, a + 1) == Ok::<(SuccessorTree, int), (int, ErrorView)>(
            (tree.true_dest, b),
        ),
        token_at(text, b, ","@) == Some(b + 1),
        successor_at(text, b + 1) == Ok::<(SuccessorTree, int), (int, ErrorView)>(
            (tree.false_dest, end),
        ),
    ensures
        cond_br_at(text, pos) == Ok::<(CondBranchTree, int), (int, ErrorView)>((tree, end)),
{
}

/// A printed conditional branch is read back behind its mnemonic.
#[verifier::spinoff_prover]
pub proof fn printed_conditional_branches_are_read_back(
    fmt: FormatView,
    context: ContextView,
    condition: ValueId,
    true_dest: BlockId,
    true_args: Seq<ValueId>,
    false_dest: BlockId,
    false_args: Seq<ValueId>,
)
    requires
        table_wf(context.types),
        args_spellable(context, context.filtered(true_args, false)),
        args_spellable(context, context.filtered(false_args, false)),
    ensures
        ({
            let first = cfg_successor(fmt, context, true_dest, true_args);
            let second = cfg_successor(fmt, context, false_dest, false_args);
            let text = "cfg.cond_br "@ + value_name(condition) + ", "@ + first + ", "@ + (second
                + "\n"@);
            cond_br_at(text, 11) == Ok::<(CondBranchTree, int), (int, ErrorView)>(
                (
                    CondBranchTree {
                        condition: decimal(condition.0 as nat),
                        true_dest: successor_tree(fmt, context, true_dest, true_args),
                        false_dest: successor_tree(fmt, context, false_dest, false_args),
                    },
                    text.len() - 1,
                ),
            )
        }),
{
    let first = cfg_successor(fmt, context, true_dest, true_args);
    let second = cfg_successor(fmt, context, false_dest, false_args);
    let name = value_name(condition);
    let text = "cfg.cond_br "@ + name + ", "@ + first + ", "@ + (second + "\n"@);
    let a: int = 12 + name.len() as int;
    let b: int = a + 2 + first.len();
    let end: int = b + 2 + second.len();
    branch_pieces(name, first, second, text);
    assert(successor_ends(text, end)) by {
        assert(skipped(text, end + 1) == end + 1);
        assert(peeked(text, end) is None);
    }
    assert(text[a] == ',' && successor_ends(text, b)) by {
        comma_is_read(text, a);
        comma_is_read(text, b);
    }
    comma_before_successor(fmt, context, true_dest, true_args, text, a);
    comma_before_successor(fmt, context, false_dest, false_args, text, b);
    name_is_read(text, 11, 12, condition);
    pieces_are_joined(
        text,
        11,
        a,
        b,
        end,
        CondBranchTree {
            condition: decimal(condition.0 as nat),
            true_dest: successor_tree(fmt, context, true_dest, true_args),
            false_dest: successor_tree(fmt, context, false_dest, false_args),
        },
    );
}

} // verus!

//! That printed definitions are read back.
use vstd::prelude::*;
use vstd::string::*;
use crate::attributes::AttrView;
use crate::context::ContextView;
use crate::dependency::value_name;
use crate::dialects::builtin::calls_round_trip::arrow_ends;
use crate::dialects::builtin::calls_round_trip::arrow_text;
use crate::dialects::builtin::calls_round_trip::arrow_tree;
use crate::dialects::builtin::calls_round_trip::param_is_read;
use crate::dialects::builtin::calls_round_trip::param_list_is_commas;
use crate::dialects::builtin::calls_round_trip::param_text;
use crate::dialects::builtin::calls_round_trip::param_texts;
use crate::dialects::builtin::calls_round_trip::param_trees;
use crate::dialects::builtin::calls_round_trip::params_spellable;
use crate::dialects::builtin::calls_round_trip::printed_results_are_read_back;
use crate::dialects::builtin::float::is_space;
use crate::dialects::builtin::round_trip::comma_from;
use crate::dialects::builtin::round_trip::comma_is_read;
use crate::dialects::builtin::round_trip::comma_upto;
use crate::dialects::builtin::round_trip::commas_agree;
use crate::dialects::cfg::round_trip::name_is_read;
use crate::dialects::func::alignments_in;
use crate::dialects::func::indices_in;
use crate::dialects::func::keyed_list;
use crate::dialects::func::number_list;
use crate::dialects::func::round_trip::kept_from;
use crate::dialects::func::round_trip::privacy_is_read;
use crate::dialects::func::round_trip::regrouped;
use crate::dialects::func::syntax::bracket_at;
use crate::dialects::func::syntax::clauses_at;
use crate::dialects::func::syntax::early_marker;
use crate::dialects::func::syntax::entries_at;
use crate::dialects::func::syntax::entry_sp_at;
use crate::dialects::func::syntax::func_at;
use crate::dialects::func::syntax::implicit_at;
use crate::dialects::func::syntax::named;
use crate::dialects::func::syntax::param_at;
use crate::dialects::func::syntax::params_of_at;
use crate::dialects::func::syntax::ClauseTree;
use crate::dialects::func::syntax::FuncTree;
use crate::dialects::func::syntax::ParamsTree;
use crate::error::ErrorView;
use crate::ids::OpId;
use crate::ids::TypeId;
use crate::ids::ValueId;
use crate::interfaces::Visibility;
use crate::ir::Value;
use crate::parse::attrs::attr_at;
use crate::parse::attrs::attrs_at;
use crate::parse::attrs::keyed_at;
use crate::parse::lists::arrow_type_at;
use crate::parse::round_trip::digits_are_read;
use crate::parse::round_trip::is_word;
use crate::parse::round_trip::other_token;
use crate::parse::round_trip::skipping_goes_on;
use crate::parse::round_trip::spellable;
use crate::parse::round_trip::spelled_char;
use crate::parse::round_trip::spelling_splits;
use crate::parse::round_trip::spells_at;
use crate::parse::round_trip::token_is_read;
use crate::parse::round_trip::word_is_read;
use crate::parse::text::decimal_is_read_back;
use crate::parse::text::is_digit;
use crate::parse::text::is_name;
use crate::parse::text::number_at;
use crate::parse::text::past;
use crate::parse::text::peeked;
use crate::parse::text::region_at;
use crate::parse::text::sigil_at;
use crate::parse::text::skipped;
use crate::parse::text::symbol_name;
use crate::parse::text::token_at;
use crate::parse::types::TypeTree;
use crate::text::decimal;
use crate::ty::table_wf;
use crate::ty::TypeView;

verus! {

/// The entries a parameter bracket is printed with: the parameters, and the marker
/// for further arguments.
pub open spec fn entry_texts(context: ContextView, params: Seq<Value>, variadic: bool) -> Seq<
    Seq<char>,
> {
    if variadic {
        param_texts(context, params).push("..."@)
    } else {
        param_texts(context, params)
    }
}

/// What those entries say in writing.
pub open spec fn entry_trees(context: ContextView, params: Seq<Value>, variadic: bool) -> Seq<
    Option<(Seq<char>, TypeTree)>,
> {
    let somes = param_trees(context, params).map_values(|p: (Seq<char>, TypeTree)| Some(p));
    if variadic {
        somes.push(None)
    } else {
        somes
    }
}

/// A parameter bracket as it is printed.
#[verifier::opaque]
pub open spec fn takes_text(context: ContextView, params: Seq<Value>, variadic: bool) -> Seq<char> {
    "("@ + context.param_list(params, params.len() as int) + (if variadic {
        if params.len() > 0 {
            ", ..."@
        } else {
            "..."@
        }
    } else {
        Seq::<char>::empty()
    }) + ")"@
}

/// One entry is read back, where a comma or a bracket follows.
proof fn entry_is_read(
    context: ContextView,
    text: Seq<char>,
    pos: int,
    start: int,
    params: Seq<Value>,
    variadic: bool,
    i: int,
)
    requires
        table_wf(context.types),
        params_spellable(context, params),
        0 <= i < entry_texts(context, params, variadic).len(),
        0 <= pos,
        start == pos || start == pos + 1 && pos < text.len() && is_space(text[pos]),
        spells_at(text, start, entry_texts(context, params, variadic)[i]),
        ({
            let end = start + entry_texts(context, params, variadic)[i].len();
            end < text.len() && (text[end] == ',' || text[end] == ')')
        }),
    ensures
        param_at(text, pos) == Ok::<(Option<(Seq<char>, TypeTree)>, int), (int, ErrorView)>(
            (
                entry_trees(context, params, variadic)[i],
                start + entry_texts(context, params, variadic)[i].len(),
            ),
        ),
        peeked(text, pos) != Some(')'),
{
    reveal_strlit("...");
    reveal_strlit("%");
    let here = entry_texts(context, params, variadic)[i];
    if i < params.len() {
        assert(here == param_text(context, params[i]));
        assert(value_name(params[i].id)[0] == '%');
        assert(here[0] == '%');
        spelled_char(text, start, here, 0);
        assert(skipped(text, start) == start);
        assert(skipped(text, pos) == start);
        if start + 3 <= text.len() {
            assert(text.subrange(start, start + 3)[0] == '%');
        }
        assert(token_at(text, pos, "..."@) is None);
        param_is_read(context, text, pos, start, params[i]);
    } else {
        spelled_char(text, start, here, 0);
        assert(skipped(text, start) == start);
        assert(skipped(text, pos) == start);
        assert(token_at(text, pos, "..."@) == Some(start + 3));
    }
}

#[verifier::spinoff_prover]
#[verifier::rlimit(60)]
proof fn entries_are_read(
    context: ContextView,
    text: Seq<char>,
    pos: int,
    start: int,
    params: Seq<Value>,
    variadic: bool,
    i: int,
)
    requires
        table_wf(context.types),
        params_spellable(context, params),
        0 <= i < entry_texts(context, params, variadic).len(),
        0 <= pos,
        start == pos || start == pos + 1 && pos < text.len() && is_space(text[pos]),
        spells_at(text, start, comma_from(entry_texts(context, params, variadic), i) + ")"@),
    ensures
        entries_at(text, pos) == Ok::<
            (Seq<Option<(Seq<char>, TypeTree)>>, int),
            (int, ErrorView),
        >(
            (
                entry_trees(context, params, variadic).skip(i),
                start + comma_from(entry_texts(context, params, variadic), i).len() + 1,
            ),
        ),
        peeked(text, pos) != Some(')'),
    decreases entry_texts(context, params, variadic).len() - i,
{
    reveal_strlit(", ");
    reveal_strlit(",");
    reveal_strlit(")");
    let texts = entry_texts(context, params, variadic);
    let all = entry_trees(context, params, variadic);
    let here = texts[i];
    let p = start + here.len();
    if i + 1 < texts.len() {
        let more = comma_from(texts, i + 1);
        assert(comma_from(texts, i) + ")"@ =~= here + (", "@ + (more + ")"@)));
        spelling_splits(text, start, here, ", "@ + (more + ")"@));
        spelling_splits(text, p, ", "@, more + ")"@);
        comma_is_read(text, p);
        other_token(text, p, ',', ")"@);
        entry_is_read(context, text, pos, start, params, variadic, i);
        entries_are_read(context, text, p + 1, p + 2, params, variadic, i + 1);
        assert(all.skip(i) =~= seq![all[i]] + all.skip(i + 1));
    } else {
        assert(comma_from(texts, i) + ")"@ =~= here + ")"@);
        spelling_splits(text, start, here, ")"@);
        spelled_char(text, p, ")"@, 0);
        token_is_read(text, p, ")"@);
        entry_is_read(context, text, pos, start, params, variadic, i);
        assert(all.skip(i) =~= seq![all[i]]);
    }
}

proof fn all_named(params: Seq<(Seq<char>, TypeTree)>)
    ensures
        named(params.map_values(|p: (Seq<char>, TypeTree)| Some(p))) == params,
    decreases params.len(),
{
    let somes = params.map_values(|p: (Seq<char>, TypeTree)| Some(p));
    if params.len() > 0 {
        all_named(params.drop_last());
        assert(somes.drop_last() =~= params.drop_last().map_values(
            |p: (Seq<char>, TypeTree)| Some(p),
        ));
        assert(params.drop_last().push(params.last()) =~= params);
    } else {
        assert(params =~= Seq::empty());
    }
}

/// A printed parameter bracket is read back: the parameters with their types, and
/// whether further arguments follow.
pub proof fn printed_parameters_are_read_back(
    context: ContextView,
    params: Seq<Value>,
    variadic: bool,
    text: Seq<char>,
    pos: int,
)
    requires
        table_wf(context.types),
        params_spellable(context, params),
        spells_at(text, pos, takes_text(context, params, variadic)),
    ensures
        params_of_at(text, pos) == Ok::<(ParamsTree, int), (int, ErrorView)>(
            (
                ParamsTree { params: param_trees(context, params), variadic },
                pos + takes_text(context, params, variadic).len(),
            ),
        ),
{
    reveal(takes_text);
    reveal_strlit("(");
    reveal_strlit(")");
    reveal_strlit(", ...");
    reveal_strlit(", ");
    reveal_strlit("...");
    let texts = entry_texts(context, params, variadic);
    let entries = entry_trees(context, params, variadic);
    let n = texts.len() as int;
    let inside = comma_upto(texts, n);
    param_list_is_commas(context, params, params.len() as int);
    same_pieces(param_texts(context, params), texts, params.len() as int);
    assert(", ..."@ =~= ", "@ + "..."@);
    assert(takes_text(context, params, variadic) =~= "("@ + (inside + ")"@));
    spelling_splits(text, pos, "("@, inside + ")"@);
    token_is_read(text, pos, "("@);
    if n == 0 {
        assert(inside + ")"@ =~= ")"@);
        token_is_read(text, pos + 1, ")"@);
        assert(entries =~= Seq::empty());
        assert(param_trees(context, params) =~= Seq::empty());
    } else {
        commas_agree(texts, 1);
        assert(inside =~= comma_from(texts, 0));
        entries_are_read(context, text, pos + 1, pos + 1, params, variadic, 0);
        no_bracket(text, pos + 1);
        assert(entries.skip(0) =~= entries);
    }
    assert(bracket_at(text, pos) == Ok::<
        (Seq<Option<(Seq<char>, TypeTree)>>, int),
        (int, ErrorView),
    >((entries, pos + takes_text(context, params, variadic).len())));
    let trees = param_trees(context, params);
    let somes = trees.map_values(|p: (Seq<char>, TypeTree)| Some(p));
    all_named(trees);
    if variadic {
        assert(entries.drop_last() =~= somes);
    }
    assert(!early_marker(entries));
}

proof fn no_bracket(text: Seq<char>, p: int)
    requires
        0 <= p <= text.len(),
        peeked(text, p) != Some(')'),
    ensures
        token_at(text, p, ")"@) is None,
{
    reveal_strlit(")");
    let q = skipped(text, p);
    skipping_goes_on(text, p);
    if q + 1 <= text.len() && text.subrange(q, q + 1) == ")"@ {
        assert(text.subrange(q, q + 1)[0] == ')');
    }
}

proof fn same_pieces(a: Seq<Seq<char>>, b: Seq<Seq<char>>, n: int)
    requires
        n <= a.len(),
        n <= b.len(),
        forall|i: int| 0 <= i < n ==> a[i] == b[i],
    ensures
        comma_upto(a, n) == comma_upto(b, n),
    decreases n,
{
    if n > 1 {
        same_pieces(a, b, n - 1);
    }
}

/// A number is read back where a character that is no digit follows.
pub proof fn number_is_read(text: Seq<char>, pos: int, start: int, n: nat)
    requires
        n < 0x8000_0000_0000_0000,
        0 <= pos,
        start == pos || start == pos + 1 && pos < text.len() && is_space(text[pos]),
        spells_at(text, start, decimal(n)),
        start + decimal(n).len() < text.len(),
        !is_digit(text[start + decimal(n).len()]),
    ensures
        number_at(text, pos) == Some((n as int, start + decimal(n).len())),
        peeked(text, pos) is Some && is_digit(peeked(text, pos)->0),
{
    let digits = decimal(n);
    decimal_is_read_back(n);
    digits_are_read(text, start, digits, 0);
    spelled_char(text, start, digits, 0);
    assert(is_digit(digits[0]));
    assert(skipped(text, start) == start);
    assert(skipped(text, pos) == start);
}

spec fn decimals(items: Seq<nat>) -> Seq<Seq<char>> {
    Seq::new(items.len(), |i: int| decimal(items[i]))
}

proof fn number_list_is_commas(items: Seq<nat>, n: int)
    requires
        n <= items.len(),
    ensures
        number_list(items, n) == comma_upto(decimals(items), n),
    decreases n,
{
    if n > 1 {
        number_list_is_commas(items, n - 1);
    }
}

/// What a list of numbers is read as.
pub open spec fn number_attrs(items: Seq<nat>) -> Seq<AttrView> {
    Seq::new(items.len(), |i: int| AttrView::Int(items[i] as int))
}

/// Whether every number of a list is one that is read.
pub open spec fn readable_numbers(items: Seq<nat>) -> bool {
    forall|i: int| 0 <= i < items.len() ==> (#[trigger] items[i]) < 0x8000_0000_0000_0000
}

proof fn numbers_are_read(text: Seq<char>, pos: int, start: int, items: Seq<nat>, i: int)
    requires
        readable_numbers(items),
        0 <= i < items.len(),
        0 <= pos,
        start == pos || start == pos + 1 && pos < text.len() && is_space(text[pos]),
        spells_at(text, start, comma_from(decimals(items), i) + "]"@),
    ensures
        attrs_at(text, pos) == Ok::<(Seq<AttrView>, int), (int, ErrorView)>(
            (number_attrs(items).skip(i), start + comma_from(decimals(items), i).len() + 1),
        ),
        peeked(text, pos) is Some && is_digit(peeked(text, pos)->0),
    decreases items.len() - i,
{
    reveal_strlit(", ");
    reveal_strlit(",");
    reveal_strlit("]");
    let texts = decimals(items);
    let all = number_attrs(items);
    let here = decimal(items[i]);
    let p = start + here.len();
    assert(items[i] < 0x8000_0000_0000_0000);
    if i + 1 < items.len() {
        let more = comma_from(texts, i + 1);
        assert(comma_from(texts, i) + "]"@ =~= here + (", "@ + (more + "]"@)));
        spelling_splits(text, start, here, ", "@ + (more + "]"@));
        spelling_splits(text, p, ", "@, more + "]"@);
        comma_is_read(text, p);
        other_token(text, p, ',', "]"@);
        number_is_read(text, pos, start, items[i]);
        assert(attr_at(text, pos) == Ok::<(Option<AttrView>, int), (int, ErrorView)>(
            (Some(all[i]), p),
        ));
        numbers_are_read(text, p + 1, p + 2, items, i + 1);
        assert(all.skip(i) =~= seq![all[i]] + all.skip(i + 1));
    } else {
        assert(comma_from(texts, i) + "]"@ =~= here + "]"@);
        spelling_splits(text, start, here, "]"@);
        spelled_char(text, p, "]"@, 0);
        token_is_read(text, p, "]"@);
        number_is_read(text, pos, start, items[i]);
        assert(attr_at(text, pos) == Ok::<(Option<AttrView>, int), (int, ErrorView)>(
            (Some(all[i]), p),
        ));
        assert(all.skip(i) =~= seq![all[i]]);
    }
}

/// Whether a clause that ends at `p` ends there: something else comes next, and
/// it starts with `c`, or nothing does.
pub open spec fn turns_to(text: Seq<char>, p: int, c: Option<char>) -> bool {
    0 <= p < text.len() && !is_name(text[p]) && peeked(text, p) == c
}

/// A printed list is read back behind its keyword, and one that is empty is not
/// read at all.
#[verifier::spinoff_prover]
#[verifier::rlimit(60)]
pub proof fn keyed_list_is_read(
    keyword: Seq<char>,
    what: Seq<char>,
    items: Seq<nat>,
    text: Seq<char>,
    pos: int,
    c: Option<char>,
)
    requires
        readable_numbers(items),
        keyword.len() > 0,
        is_name(keyword[0]),
        !is_space(keyword[0]),
        Some(keyword[0]) != c,
        spells_at(text, pos, keyed_list(keyword, items)),
        turns_to(text, pos + keyed_list(keyword, items).len(), c),
    ensures
        keyed_at(text, pos, keyword, what) == Ok::<(Option<AttrView>, int), (int, ErrorView)>(
            (
                if items.len() == 0 {
                    None
                } else {
                    Some(AttrView::Array(number_attrs(items)))
                },
                pos + keyed_list(keyword, items).len(),
            ),
        ),
        turns_to(
            text,
            pos,
            if items.len() == 0 {
                c
            } else {
                Some(keyword[0])
            },
        ),
{
    reveal_strlit(" ");
    reveal_strlit(" [");
    reveal_strlit("[");
    reveal_strlit("]");
    reveal_strlit("\"");
    reveal_strlit("true");
    reveal_strlit("false");
    if items.len() == 0 {
        let q = skipped(text, pos);
        skipping_goes_on(text, pos);
        if q + keyword.len() <= text.len() && text.subrange(q, q + keyword.len()) == keyword {
            assert(text.subrange(q, q + keyword.len())[0] == keyword[0]);
        }
    } else {
        let list = number_list(items, items.len() as int);
        assert(keyed_list(keyword, items) =~= " "@ + (keyword + (" ["@ + (list + "]"@))));
        spelling_splits(text, pos, " "@, keyword + (" ["@ + (list + "]"@)));
        spelled_char(text, pos, " "@, 0);
        spelling_splits(text, pos + 1, keyword, " ["@ + (list + "]"@));
        spelled_char(text, pos + 1, keyword, 0);
        assert(skipped(text, pos + 1) == pos + 1);
        assert(skipped(text, pos) == pos + 1);
        let p = pos + 1 + keyword.len();
        assert(token_at(text, pos, keyword) == Some(p));
        spelling_splits(text, p, " ["@, list + "]"@);
        spelled_char(text, p, " ["@, 0);
        spelled_char(text, p, " ["@, 1);
        assert(skipped(text, p + 1) == p + 1);
        assert(skipped(text, p) == p + 1);
        assert(number_at(text, p) is None);
        other_at(text, p, p + 1, "\""@);
        other_at(text, p, p + 1, "true"@);
        other_at(text, p, p + 1, "false"@);
        assert(text.subrange(p + 1, p + 2) =~= "["@);
        assert(token_at(text, p, "["@) == Some(p + 2));
        number_list_is_commas(items, items.len() as int);
        commas_agree(decimals(items), 1);
        assert(list =~= comma_from(decimals(items), 0));
        numbers_are_read(text, p + 2, p + 2, items, 0);
        assert(number_attrs(items).skip(0) =~= number_attrs(items));
        let q = skipped(text, p + 2);
        skipping_goes_on(text, p + 2);
        if q + 1 <= text.len() && text.subrange(q, q + 1) == "]"@ {
            assert(text.subrange(q, q + 1)[0] == ']');
        }
        assert(token_at(text, p + 2, "]"@) is None);
    }
}

proof fn other_at(text: Seq<char>, p: int, q: int, token: Seq<char>)
    requires
        skipped(text, p) == q,
        0 <= q < text.len(),
        token.len() > 0,
        token[0] != text[q],
    ensures
        token_at(text, p, token) is None,
{
    if q + token.len() <= text.len() {
        assert(text.subrange(q, q + token.len())[0] == text[q]);
    }
}

/// The clauses behind a printed signature.
pub ghost struct Clauses {
    pub result_address: bool,
    pub implicit: nat,
    pub entry_sp: Option<ValueId>,
    pub alignments: Seq<nat>,
    pub stack: Seq<nat>,
    pub noalias: Seq<nat>,
}

/// What is said of where the result goes.
pub open spec fn address_text(said: bool) -> Seq<char> {
    if said {
        " result_address"@
    } else {
        Seq::<char>::empty()
    }
}

spec fn implicit_text(n: nat) -> Seq<char> {
    if n > 0 {
        " implicit_arguments "@ + decimal(n)
    } else {
        Seq::<char>::empty()
    }
}

spec fn entry_text(value: Option<ValueId>) -> Seq<char> {
    match value {
        Some(value) => " entry_sp "@ + value_name(value),
        None => Seq::<char>::empty(),
    }
}

impl Clauses {
    #[verifier::opaque]
    spec fn text(self) -> Seq<char> {
        address_text(self.result_address) + (implicit_text(self.implicit) + (entry_text(
            self.entry_sp,
        ) + (keyed_list("argument_alignments"@, self.alignments) + (keyed_list(
            "stack_arguments"@,
            self.stack,
        ) + keyed_list("noalias"@, self.noalias)))))
    }

    /// Whether every number of the clauses is one that is read.
    pub open spec fn readable(self) -> bool {
        &&& self.implicit < 0x8000_0000_0000_0000
        &&& readable_numbers(self.alignments)
        &&& readable_numbers(self.stack)
        &&& readable_numbers(self.noalias)
    }

    /// What the clauses say in writing.
    pub open spec fn tree(self) -> ClauseTree {
        ClauseTree {
            result_address: self.result_address,
            implicit_arguments: if self.implicit > 0 {
                Some(self.implicit)
            } else {
                None
            },
            entry_sp: match self.entry_sp {
                Some(value) => Some(decimal(value.0 as nat)),
                None => None,
            },
            argument_alignments: list_tree(self.alignments),
            stack_arguments: list_tree(self.stack),
            noalias: list_tree(self.noalias),
        }
    }
}

/// What a list is read as: nothing where it is empty.
pub open spec fn list_tree(items: Seq<nat>) -> Option<AttrView> {
    if items.len() == 0 {
        None
    } else {
        Some(AttrView::Array(number_attrs(items)))
    }
}

pub proof fn word_is_absent(text: Seq<char>, pos: int, word: Seq<char>, c: Option<char>)
    requires
        turns_to(text, pos, c),
        word.len() > 0,
        Some(word[0]) != c,
    ensures
        token_at(text, pos, word) is None,
{
    skipping_goes_on(text, pos);
    let q = skipped(text, pos);
    if q + word.len() <= text.len() {
        assert(text.subrange(q, q + word.len())[0] == text[q]);
    }
}

pub proof fn word_is_there(text: Seq<char>, pos: int, word: Seq<char>)
    requires
        spells_at(text, pos, " "@ + word),
        word.len() > 0,
        is_name(word[0]),
    ensures
        token_at(text, pos, word) == Some(pos + 1 + word.len()),
        turns_to(text, pos, Some(word[0])),
{
    reveal_strlit(" ");
    spelling_splits(text, pos, " "@, word);
    spelled_char(text, pos, " "@, 0);
    spelled_char(text, pos + 1, word, 0);
    assert(skipped(text, pos + 1) == pos + 1);
    assert(skipped(text, pos) == pos + 1);
}

pub proof fn address_is_read(said: bool, text: Seq<char>, pos: int, c: Option<char>)
    requires
        spells_at(text, pos, address_text(said)),
        turns_to(text, pos + address_text(said).len(), c),
        c != Some('r'),
    ensures
        token_at(text, pos, "result_address"@) is Some == said,
        past(text, pos, "result_address"@) == pos + address_text(said).len(),
        turns_to(
            text,
            pos,
            if said {
                Some('r')
            } else {
                c
            },
        ),
{
    reveal_strlit(" result_address");
    reveal_strlit("result_address");
    reveal_strlit(" ");
    if said {
        assert(" result_address"@ =~= " "@ + "result_address"@);
        word_is_there(text, pos, "result_address"@);
    } else {
        word_is_absent(text, pos, "result_address"@, c);
    }
}

proof fn implicit_is_read(n: nat, text: Seq<char>, pos: int, c: Option<char>)
    requires
        n < 0x8000_0000_0000_0000,
        spells_at(text, pos, implicit_text(n)),
        turns_to(text, pos + implicit_text(n).len(), c),
        c != Some('i'),
    ensures
        implicit_at(text, pos) == Ok::<(Option<nat>, int), (int, ErrorView)>(
            (
                if n > 0 {
                    Some(n)
                } else {
                    None
                },
                pos + implicit_text(n).len(),
            ),
        ),
        turns_to(
            text,
            pos,
            if n > 0 {
                Some('i')
            } else {
                c
            },
        ),
{
    reveal_strlit(" implicit_arguments ");
    reveal_strlit("implicit_arguments");
    reveal_strlit(" ");
    if n > 0 {
        let word = "implicit_arguments"@;
        assert(implicit_text(n) =~= (" "@ + word) + (" "@ + decimal(n)));
        spelling_splits(text, pos, " "@ + word, " "@ + decimal(n));
        word_is_there(text, pos, word);
        let p = pos + 1 + word.len();
        spelling_splits(text, p, " "@, decimal(n));
        spelled_char(text, p, " "@, 0);
        number_is_read(text, p, p + 1, n);
    } else {
        word_is_absent(text, pos, "implicit_arguments"@, c);
    }
}

proof fn entry_sp_is_read(value: Option<ValueId>, text: Seq<char>, pos: int, c: Option<char>)
    requires
        spells_at(text, pos, entry_text(value)),
        turns_to(text, pos + entry_text(value).len(), c),
        c != Some('e'),
    ensures
        entry_sp_at(text, pos) == Ok::<(Option<Seq<char>>, int), (int, ErrorView)>(
            (
                match value {
                    Some(value) => Some(decimal(value.0 as nat)),
                    None => None,
                },
                pos + entry_text(value).len(),
            ),
        ),
        turns_to(
            text,
            pos,
            if value is Some {
                Some('e')
            } else {
                c
            },
        ),
{
    reveal_strlit(" entry_sp ");
    reveal_strlit("entry_sp");
    reveal_strlit(" ");
    match value {
        Some(value) => {
            let word = "entry_sp"@;
            let name = value_name(value);
            assert(entry_text(Some(value)) =~= (" "@ + word) + (" "@ + name));
            spelling_splits(text, pos, " "@ + word, " "@ + name);
            word_is_there(text, pos, word);
            let p = pos + 1 + word.len();
            spelling_splits(text, p, " "@, name);
            spelled_char(text, p, " "@, 0);
            name_is_read(text, p, p + 1, value);
        },
        None => {
            word_is_absent(text, pos, "entry_sp"@, c);
        },
    }
}

/// Printed clauses are read back up to the body.
#[verifier::spinoff_prover]
#[verifier::rlimit(60)]
proof fn clauses_are_read(clauses: Clauses, text: Seq<char>, pos: int)
    requires
        clauses.readable(),
        spells_at(text, pos, clauses.text()),
        turns_to(text, pos + clauses.text().len(), Some('{')),
    ensures
        clauses_at(text, pos) == Ok::<(ClauseTree, int), (int, ErrorView)>(
            (clauses.tree(), pos + clauses.text().len()),
        ),
        ({
            let c = peeked(text, pos)->0;
            turns_to(text, pos, Some(c)) && (is_name(c) || c == '{')
        }),
{
    reveal(Clauses::text);
    reveal_strlit("argument_alignments");
    reveal_strlit("stack_arguments");
    reveal_strlit("noalias");
    let ra = address_text(clauses.result_address);
    let im = implicit_text(clauses.implicit);
    let sp = entry_text(clauses.entry_sp);
    let al = keyed_list("argument_alignments"@, clauses.alignments);
    let st = keyed_list("stack_arguments"@, clauses.stack);
    let na = keyed_list("noalias"@, clauses.noalias);
    spelling_splits(text, pos, ra, im + (sp + (al + (st + na))));
    let q2 = pos + ra.len();
    spelling_splits(text, q2, im, sp + (al + (st + na)));
    let q3 = q2 + im.len();
    spelling_splits(text, q3, sp, al + (st + na));
    let q4 = q3 + sp.len();
    spelling_splits(text, q4, al, st + na);
    let q5 = q4 + al.len();
    spelling_splits(text, q5, st, na);
    let q6 = q5 + st.len();
    assert(q6 + na.len() == pos + clauses.text().len());
    keyed_list_is_read("noalias"@, "argument list"@, clauses.noalias, text, q6, Some('{'));
    let c6 = if clauses.noalias.len() == 0 {
        Some('{')
    } else {
        Some('n')
    };
    keyed_list_is_read("stack_arguments"@, "argument list"@, clauses.stack, text, q5, c6);
    let c5 = if clauses.stack.len() == 0 {
        c6
    } else {
        Some('s')
    };
    keyed_list_is_read(
        "argument_alignments"@,
        "alignment list"@,
        clauses.alignments,
        text,
        q4,
        c5,
    );
    let c4 = if clauses.alignments.len() == 0 {
        c5
    } else {
        Some('a')
    };
    entry_sp_is_read(clauses.entry_sp, text, q3, c4);
    let c3 = if clauses.entry_sp is Some {
        Some('e')
    } else {
        c4
    };
    implicit_is_read(clauses.implicit, text, q2, c3);
    let c2 = if clauses.implicit > 0 {
        Some('i')
    } else {
        c3
    };
    address_is_read(clauses.result_address, text, pos, c2);
}

impl ContextView {
    /// The clauses a definition is printed with.
    pub open spec fn func_clauses(self, op: OpId) -> Clauses {
        Clauses {
            result_address: self.flag_attr(op, "result_address"@),
            implicit: self.implicit_count(op),
            entry_sp: self.entry_sp(op),
            alignments: alignments_in(self.attr(op, "argument_alignments"@)),
            stack: indices_in(self.attr(op, "stack_arguments"@)),
            noalias: indices_in(self.attr(op, "noalias"@)),
        }
    }

    /// What a definition gives, where its header says so.
    pub open spec fn func_result(self, op: OpId) -> Option<TypeId> {
        let ret = self.type_attr(op, "ret_type"@)->0;
        if self.types[ret.0 as int] == TypeView::Unit {
            None
        } else {
            Some(ret)
        }
    }
}

/// A header is its value and its mnemonic, whether it is private, its name, what it
/// takes, what it gives, and its clauses.
proof fn header_splits(context: ContextView, op: OpId)
    ensures
        context.func_header(op) == value_name(context.ir.op(op)->0.results[0]) + " = func.func"@
            + (kept_from(context.visibility_of(op) == Visibility::Private) + ((" @"@
            + context.str_attr(op, "sym_name"@)->0) + (takes_text(
            context,
            context.func_params(op),
            context.func_variadic(op),
        ) + (arrow_text(context, context.func_result(op)) + context.func_clauses(op).text())))),
{
    reveal(takes_text);
    reveal(Clauses::text);
    let f = value_name(context.ir.op(op)->0.results[0]) + " = func.func"@;
    let kept = kept_from(context.visibility_of(op) == Visibility::Private);
    let symbol = " @"@ + context.str_attr(op, "sym_name"@)->0;
    let takes = takes_text(context, context.func_params(op), context.func_variadic(op));
    let arrow = arrow_text(context, context.func_result(op));
    let clauses = context.func_clauses(op);
    let ra = address_text(clauses.result_address);
    let im = implicit_text(clauses.implicit);
    let sp = entry_text(clauses.entry_sp);
    let al = keyed_list("argument_alignments"@, clauses.alignments);
    let st = keyed_list("stack_arguments"@, clauses.stack);
    let na = keyed_list("noalias"@, clauses.noalias);
    let g1 = f + kept;
    let g2 = g1 + symbol;
    let g3 = g2 + takes;
    let g4 = g3 + arrow;
    let g5 = g4 + ra;
    let g6 = g5 + im;
    let g7 = g6 + sp;
    let g8 = g7 + al;
    let g9 = g8 + st;
    regrouped(g3, arrow + ra + im, sp);
    regrouped(g3, arrow + ra, im);
    regrouped(g3, arrow, ra);
    regrouped(g7, al + st, na);
    regrouped(g7, al, st);
    let x6 = st + na;
    let x5 = al + x6;
    let x4 = sp + x5;
    let x3 = im + x4;
    let x2 = ra + x3;
    let x1 = arrow + x2;
    let x0 = takes + x1;
    regrouped(f, kept, symbol + x0);
    regrouped(g1, symbol, x0);
    regrouped(g2, takes, x1);
    regrouped(g3, arrow, x2);
    regrouped(g4, ra, x3);
    regrouped(g5, im, x4);
    regrouped(g6, sp, x5);
    regrouped(g7, al, x6);
    regrouped(g8, st, na);
}

proof fn region_starts(text: Seq<char>, pos: int)
    requires
        0 <= pos <= text.len(),
        region_at(text, pos) is Ok,
    ensures
        turns_to(text, pos, Some('{')),
{
    reveal_strlit("{");
    skipping_goes_on(text, pos);
    let q = skipped(text, pos);
    assert(text.subrange(q, q + 1)[0] == '{');
}

pub proof fn symbol_is_read(text: Seq<char>, p: int, name: Seq<char>)
    requires
        is_word(name),
        spells_at(text, p, " @"@ + name),
        p + 2 + name.len() < text.len(),
        !is_name(text[p + 2 + name.len()]),
    ensures
        symbol_name(text, p) == Ok::<(Seq<char>, int), (int, ErrorView)>(
            (name, p + 2 + name.len()),
        ),
        text[p] == ' ',
        text[p + 1] == '@',
{
    reveal_strlit(" @");
    spelling_splits(text, p, " @"@, name);
    spelled_char(text, p, " @"@, 0);
    spelled_char(text, p, " @"@, 1);
    word_is_read(text, p + 2, name);
    assert(skipped(text, p + 1) == p + 1);
    assert(skipped(text, p) == p + 1);
    assert(sigil_at(text, p, '@') == Some((name, p + 2 + name.len())));
}

/// What a printed result is followed by does not go on with it.
proof fn clauses_end_the_result(text: Seq<char>, t: int)
    requires
        ({
            let c = peeked(text, t)->0;
            turns_to(text, t, Some(c)) && (is_name(c) || c == '{')
        }),
    ensures
        arrow_ends(text, t),
{
}

proof fn takes_opens(context: ContextView, params: Seq<Value>, variadic: bool)
    ensures
        takes_text(context, params, variadic).len() > 0,
        takes_text(context, params, variadic)[0] == '(',
{
    reveal(takes_text);
    reveal_strlit("(");
}

proof fn five_pieces(
    text: Seq<char>,
    pos: int,
    a: Seq<char>,
    b: Seq<char>,
    c: Seq<char>,
    d: Seq<char>,
    e: Seq<char>,
)
    requires
        spells_at(text, pos, a + (b + (c + (d + e)))),
    ensures
        spells_at(text, pos, a),
        spells_at(text, pos + a.len(), b),
        spells_at(text, pos + a.len() + b.len(), c),
        spells_at(text, pos + a.len() + b.len() + c.len(), d),
        spells_at(text, pos + a.len() + b.len() + c.len() + d.len(), e),
{
    spelling_splits(text, pos, a, b + (c + (d + e)));
    spelling_splits(text, pos + a.len(), b, c + (d + e));
    spelling_splits(text, pos + a.len() + b.len(), c, d + e);
    spelling_splits(text, pos + a.len() + b.len() + c.len(), d, e);
}

/// A function is what its parts are read as, one after another.
proof fn parts_make_a_function(text: Seq<char>, pos: int, p: int, tree: FuncTree, ends: Seq<int>)
    requires
        ends.len() == 5,
        token_at(text, pos, "private"@) == if tree.private {
            Some(p)
        } else {
            None
        },
        !tree.private ==> p == pos,
        symbol_name(text, p) == Ok::<(Seq<char>, int), (int, ErrorView)>((tree.name, ends[0])),
        params_of_at(text, ends[0]) == Ok::<(ParamsTree, int), (int, ErrorView)>(
            (tree.params, ends[1]),
        ),
        arrow_type_at(text, ends[1]) == Ok::<(Option<TypeTree>, int), (int, ErrorView)>(
            (tree.ret, ends[2]),
        ),
        clauses_at(text, ends[2]) == Ok::<(ClauseTree, int), (int, ErrorView)>(
            (tree.clauses, ends[3]),
        ),
        region_at(text, ends[3]) == Ok::<((int, int), int), (int, ErrorView)>(
            (tree.body, ends[4]),
        ),
    ensures
        func_at(text, pos) == Ok::<(FuncTree, int), (int, ErrorView)>((tree, ends[4])),
{
}

/// What a definition is printed from.
pub ghost struct Definition {
    pub private: bool,
    pub name: Seq<char>,
    pub params: Seq<Value>,
    pub variadic: bool,
    pub ret: Option<TypeId>,
    pub clauses: Clauses,
}

impl Definition {
    /// Whether everything a definition says has a form.
    pub open spec fn spellable(self, context: ContextView) -> bool {
        &&& is_word(self.name)
        &&& params_spellable(context, self.params)
        &&& self.ret matches Some(ty) ==> spellable(context.types, ty)
        &&& self.clauses.readable()
    }

    /// What a definition with such a body says in writing.
    pub open spec fn tree(self, context: ContextView, body: (int, int)) -> FuncTree {
        FuncTree {
            private: self.private,
            name: self.name,
            params: ParamsTree {
                params: param_trees(context, self.params),
                variadic: self.variadic,
            },
            ret: arrow_tree(context, self.ret),
            clauses: self.clauses.tree(),
            body,
        }
    }

    #[verifier::opaque]
    spec fn text(self, context: ContextView) -> Seq<char> {
        kept_from(self.private) + ((" @"@ + self.name) + (takes_text(
            context,
            self.params,
            self.variadic,
        ) + (arrow_text(context, self.ret) + self.clauses.text())))
    }

    /// Where the parts of a definition that stands at `pos` start: its name, what
    /// it takes, what it gives, its clauses and its body.
    #[verifier::opaque]
    spec fn starts(self, context: ContextView, pos: int) -> (int, int, int, int, int) {
        let p = pos + kept_from(self.private).len();
        let q = p + 2 + self.name.len();
        let r = q + takes_text(context, self.params, self.variadic).len();
        let t = r + arrow_text(context, self.ret).len();
        (p, q, r, t, t + self.clauses.text().len())
    }

    proof fn pieces(self, context: ContextView, text: Seq<char>, pos: int)
        requires
            spells_at(text, pos, self.text(context)),
        ensures
            ({
                let at = self.starts(context, pos);
                &&& spells_at(text, pos, kept_from(self.private))
                &&& at.0 == pos + kept_from(self.private).len()
                &&& spells_at(text, at.0, " @"@ + self.name)
                &&& at.1 == at.0 + 2 + self.name.len()
                &&& spells_at(text, at.1, takes_text(context, self.params, self.variadic))
                &&& at.2 == at.1 + takes_text(context, self.params, self.variadic).len()
                &&& spells_at(text, at.2, arrow_text(context, self.ret))
                &&& at.3 == at.2 + arrow_text(context, self.ret).len()
                &&& spells_at(text, at.3, self.clauses.text())
                &&& at.4 == at.3 + self.clauses.text().len()
                &&& at.4 == pos + self.text(context).len()
            }),
    {
        reveal(Definition::text);
        reveal(Definition::starts);
        let symbol = " @"@ + self.name;
        assert(symbol.len() == 2 + self.name.len()) by {
            reveal_strlit(" @");
        }
        five_pieces(
            text,
            pos,
            kept_from(self.private),
            symbol,
            takes_text(context, self.params, self.variadic),
            arrow_text(context, self.ret),
            self.clauses.text(),
        );
    }

    proof fn opening_is_read(self, context: ContextView, text: Seq<char>, pos: int)
        requires
            is_word(self.name),
            spells_at(text, pos, self.text(context)),
        ensures
            token_at(text, pos, "private"@) == if self.private {
                Some(self.starts(context, pos).0)
            } else {
                None
            },
            !self.private ==> self.starts(context, pos).0 == pos,
            symbol_name(text, self.starts(context, pos).0) == Ok::<
                (Seq<char>, int),
                (int, ErrorView),
            >((self.name, self.starts(context, pos).1)),
    {
        self.pieces(context, text, pos);
        let at = self.starts(context, pos);
        let takes = takes_text(context, self.params, self.variadic);
        takes_opens(context, self.params, self.variadic);
        spelled_char(text, at.1, takes, 0);
        symbol_is_read(text, at.0, self.name);
        privacy_is_read(self.private, text, pos);
    }

    proof fn parameters_are_read(self, context: ContextView, text: Seq<char>, pos: int)
        requires
            table_wf(context.types),
            params_spellable(context, self.params),
            spells_at(text, pos, self.text(context)),
        ensures
            params_of_at(text, self.starts(context, pos).1) == Ok::<
                (ParamsTree, int),
                (int, ErrorView),
            >(
                (
                    ParamsTree {
                        params: param_trees(context, self.params),
                        variadic: self.variadic,
                    },
                    self.starts(context, pos).2,
                ),
            ),
    {
        self.pieces(context, text, pos);
        printed_parameters_are_read_back(
            context,
            self.params,
            self.variadic,
            text,
            self.starts(context, pos).1,
        );
    }

    proof fn rest_is_read(self, context: ContextView, text: Seq<char>, pos: int)
        requires
            table_wf(context.types),
            self.ret matches Some(ty) ==> spellable(context.types, ty),
            self.clauses.readable(),
            spells_at(text, pos, self.text(context)),
            region_at(text, pos + self.text(context).len()) is Ok,
        ensures
            arrow_type_at(text, self.starts(context, pos).2) == Ok::<
                (Option<TypeTree>, int),
                (int, ErrorView),
            >((arrow_tree(context, self.ret), self.starts(context, pos).3)),
            clauses_at(text, self.starts(context, pos).3) == Ok::<
                (ClauseTree, int),
                (int, ErrorView),
            >((self.clauses.tree(), self.starts(context, pos).4)),
            self.starts(context, pos).4 == pos + self.text(context).len(),
    {
        self.pieces(context, text, pos);
        let at = self.starts(context, pos);
        region_starts(text, at.4);
        clauses_are_read(self.clauses, text, at.3);
        clauses_end_the_result(text, at.3);
        printed_results_are_read_back(context, self.ret, text, at.2);
    }

    /// A definition is read back behind its mnemonic, wherever it stands.
    proof fn is_read(
        self,
        context: ContextView,
        text: Seq<char>,
        pos: int,
        body: (int, int),
        end: int,
    )
        requires
            table_wf(context.types),
            self.spellable(context),
            spells_at(text, pos, self.text(context)),
            region_at(text, pos + self.text(context).len()) == Ok::<
                ((int, int), int),
                (int, ErrorView),
            >((body, end)),
        ensures
            func_at(text, pos) == Ok::<(FuncTree, int), (int, ErrorView)>(
                (self.tree(context, body), end),
            ),
    {
        self.opening_is_read(context, text, pos);
        self.parameters_are_read(context, text, pos);
        self.rest_is_read(context, text, pos);
        let at = self.starts(context, pos);
        parts_make_a_function(
            text,
            pos,
            at.0,
            self.tree(context, body),
            seq![at.1, at.2, at.3, at.4, end],
        );
    }
}

proof fn tail_is_spelled(text: Seq<char>, ahead: Seq<char>, said: Seq<char>, more: Seq<char>)
    requires
        text == ahead + said + more,
    ensures
        spells_at(text, ahead.len() as int, said),
        text.len() == ahead.len() + said.len() + more.len(),
{
    assert(text.subrange(ahead.len() as int, (ahead.len() + said.len()) as int) =~= said);
}

impl ContextView {
    /// What a definition is printed from.
    pub open spec fn definition(self, op: OpId) -> Definition {
        Definition {
            private: self.visibility_of(op) == Visibility::Private,
            name: self.str_attr(op, "sym_name"@)->0,
            params: self.func_params(op),
            variadic: self.func_variadic(op),
            ret: self.func_result(op),
            clauses: self.func_clauses(op),
        }
    }
}

/// A definition is read back from its printed header, behind its mnemonic, and the
/// body that follows: whether it is private, its name, its parameters with their
/// types, what it gives, and every clause. A number past what is read is none that
/// comes back.
pub proof fn printed_definitions_are_read_back(
    context: ContextView,
    op: OpId,
    printed: Seq<char>,
    body: (int, int),
    end: int,
)
    requires
        table_wf(context.types),
        context.definition(op).spellable(context),
        region_at(context.func_header(op) + printed, context.func_header(op).len() as int) == Ok::<
            ((int, int), int),
            (int, ErrorView),
        >((body, end)),
    ensures
        func_at(
            context.func_header(op) + printed,
            (value_name(context.ir.op(op)->0.results[0]).len() + 12) as int,
        ) == Ok::<(FuncTree, int), (int, ErrorView)>(
            (context.definition(op).tree(context, body), end),
        ),
{
    let definition = context.definition(op);
    let ahead = value_name(context.ir.op(op)->0.results[0]) + " = func.func"@;
    let said = definition.text(context);
    let text = context.func_header(op) + printed;
    assert(context.func_header(op) == ahead + said) by {
        header_splits(context, op);
        reveal(Definition::text);
    }
    assert(ahead.len() == value_name(context.ir.op(op)->0.results[0]).len() + 12) by {
        reveal_strlit(" = func.func");
    }
    tail_is_spelled(text, ahead, said, printed);
    definition.is_read(context, text, ahead.len() as int, body, end);
}

} // verus!

//! That printed calls are read back.
use vstd::prelude::*;
use vstd::string::*;
use crate::attributes::AttrView;
use crate::context::ContextView;
use crate::dependency::dep_list;
use crate::dependency::value_list;
use crate::dependency::value_name;
use crate::dialects::builtin::calls_round_trip::arg_trees;
use crate::dialects::builtin::calls_round_trip::arrow_ends;
use crate::dialects::builtin::calls_round_trip::arrow_text;
use crate::dialects::builtin::calls_round_trip::arrow_tree;
use crate::dialects::builtin::calls_round_trip::first_is_a_value;
use crate::dialects::builtin::calls_round_trip::printed_results_are_read_back;
use crate::dialects::builtin::float::is_space;
use crate::dialects::builtin::round_trip::args_spellable;
use crate::dialects::builtin::round_trip::comma_from;
use crate::dialects::builtin::round_trip::commas_agree;
use crate::dialects::builtin::round_trip::names_of;
use crate::dialects::builtin::round_trip::texts_of;
use crate::dialects::builtin::round_trip::trees;
use crate::dialects::builtin::round_trip::type_names_are_commas;
use crate::dialects::builtin::round_trip::type_run_is_read;
use crate::dialects::builtin::round_trip::value_list_is_commas;
use crate::dialects::cfg::round_trip::name_is_read;
use crate::dialects::cfg::round_trip::names_are_read;
use crate::dialects::cfg::round_trip::numbers_of;
use crate::dialects::func::alignments_in;
use crate::dialects::func::definition_round_trip::address_is_read;
use crate::dialects::func::definition_round_trip::address_text;
use crate::dialects::func::definition_round_trip::keyed_list_is_read;
use crate::dialects::func::definition_round_trip::list_tree;
use crate::dialects::func::definition_round_trip::readable_numbers;
use crate::dialects::func::definition_round_trip::symbol_is_read;
use crate::dialects::func::definition_round_trip::turns_to;
use crate::dialects::func::definition_round_trip::word_is_absent;
use crate::dialects::func::definition_round_trip::word_is_there;
use crate::dialects::func::keyed_list;
use crate::dialects::func::round_trip::regrouped;
use crate::dialects::func::syntax::call_at;
use crate::dialects::func::syntax::callee_at;
use crate::dialects::func::syntax::CallTree;
use crate::error::ErrorView;
use crate::ids::OpId;
use crate::ids::TypeId;
use crate::ids::ValueId;
use crate::parse::attrs::keyed_at;
use crate::parse::lists::args_at;
use crate::parse::lists::dep_names_at;
use crate::parse::lists::typed_names_at;
use crate::parse::round_trip::is_word;
use crate::parse::round_trip::spellable;
use crate::parse::round_trip::spelled_char;
use crate::parse::round_trip::spelling_splits;
use crate::parse::round_trip::spells_at;
use crate::parse::round_trip::token_is_read;
use crate::parse::text::past;
use crate::parse::text::skipped;
use crate::parse::text::token_at;
use crate::parse::types::TypeTree;
use crate::text::decimal;
use crate::ty::table_wf;

verus! {

/// Printed arguments are read back by their numbers, wherever they stand.
#[verifier::spinoff_prover]
#[verifier::rlimit(60)]
proof fn arguments_are_read(
    context: ContextView,
    args: Seq<ValueId>,
    text: Seq<char>,
    pos: int,
)
    requires
        table_wf(context.types),
        args_spellable(context, args),
        spells_at(text, pos, context.typed_args(args)),
    ensures
        args_at(text, pos) == Ok::<((Seq<Seq<char>>, Seq<TypeTree>), int), (int, ErrorView)>(
            (
                (numbers_of(args), arg_trees(context, args)),
                pos + context.typed_args(args).len(),
            ),
        ),
        text[pos] == '(',
{
    reveal_strlit("()");
    reveal_strlit("(");
    reveal_strlit(")");
    reveal_strlit(" : ");
    reveal_strlit(":");
    let whole = context.typed_args(args);
    if args.len() == 0 {
        assert(whole =~= "("@ + ")"@);
        spelling_splits(text, pos, "("@, ")"@);
        spelled_char(text, pos, "("@, 0);
        token_is_read(text, pos, "("@);
        token_is_read(text, pos + 1, ")"@);
        assert(arg_trees(context, args) =~= Seq::<TypeTree>::empty());
        assert(numbers_of(args) =~= Seq::<Seq<char>>::empty());
    } else {
        let list = context.types_of(args);
        let values = value_list(args);
        let names = context.type_names(list, args.len() as int);
        let types = context.types;
        assert(whole =~= "("@ + (values + (" : "@ + (names + ")"@))));
        spelling_splits(text, pos, "("@, values + (" : "@ + (names + ")"@)));
        spelled_char(text, pos, "("@, 0);
        token_is_read(text, pos, "("@);
        let a = pos + 1;
        spelling_splits(text, a, values, " : "@ + (names + ")"@));
        let b = a + values.len();
        spelling_splits(text, b, " : "@, names + ")"@);
        spelled_char(text, b, " : "@, 0);
        spelled_char(text, b, " : "@, 1);
        spelled_char(text, b, " : "@, 2);
        assert(skipped(text, b + 1) == b + 1);
        assert(skipped(text, b) == b + 1);
        value_list_is_commas(args);
        commas_agree(names_of(args), 1);
        assert(values =~= comma_from(names_of(args), 0));
        first_is_a_value(text, a, args);
        names_are_read(text, a, a, args, 0);
        assert(numbers_of(args).skip(0) =~= numbers_of(args));
        assert(spells_at(text, b + 1, ":"@)) by {
            assert(text.subrange(b + 1, b + 2) =~= ":"@);
        }
        token_is_read(text, b + 1, ":"@);
        assert(token_at(text, b, ":"@) == Some(b + 2));
        type_names_are_commas(context, list, list.len() as int);
        commas_agree(texts_of(types, list), 1);
        assert(names =~= comma_from(texts_of(types, list), 0));
        assert forall|k: int| 0 <= k < list.len() implies spellable(types, #[trigger] list[k]) by {
            assert(context.ir.value(args[k]) is Some);
        }
        type_run_is_read(types, text, b + 2, b + 3, list, 0);
        assert(trees(types, list).skip(0) =~= arg_trees(context, args));
        let c = b + 3 + names.len();
        spelling_splits(text, b + 3, names, ")"@);
        token_is_read(text, c, ")"@);
        assert(typed_names_at(text, a) == Ok::<
            ((Seq<Seq<char>>, Seq<TypeTree>), int),
            (int, ErrorView),
        >(((numbers_of(args), arg_trees(context, args)), c + 1)));
    }
}

/// Printed dependencies are read back by their numbers at the end of a line.
#[verifier::spinoff_prover]
proof fn dependencies_are_read(deps: Seq<ValueId>, text: Seq<char>, pos: int)
    requires
        spells_at(text, pos, dep_list(deps, true)),
        turns_to(text, pos + dep_list(deps, true).len(), None),
    ensures
        dep_names_at(text, pos) == Ok::<(Seq<Seq<char>>, int), (int, ErrorView)>(
            (numbers_of(deps), pos + dep_list(deps, true).len()),
        ),
        turns_to(
            text,
            pos,
            if deps.len() == 0 {
                None
            } else {
                Some('|')
            },
        ),
{
    reveal_strlit(" | ");
    reveal_strlit("|");
    if deps.len() == 0 {
        word_is_absent(text, pos, "|"@, None);
        assert(numbers_of(deps) =~= Seq::<Seq<char>>::empty());
    } else {
        let values = value_list(deps);
        spelling_splits(text, pos, " | "@, values);
        spelled_char(text, pos, " | "@, 0);
        spelled_char(text, pos, " | "@, 1);
        spelled_char(text, pos, " | "@, 2);
        assert(skipped(text, pos + 1) == pos + 1);
        assert(skipped(text, pos) == pos + 1);
        assert(text.subrange(pos + 1, pos + 2) =~= "|"@);
        assert(token_at(text, pos, "|"@) == Some(pos + 2));
        value_list_is_commas(deps);
        commas_agree(names_of(deps), 1);
        assert(values =~= comma_from(names_of(deps), 0));
        names_are_read(text, pos + 2, pos + 3, deps, 0);
        assert(numbers_of(deps).skip(0) =~= numbers_of(deps));
    }
}

/// What is said of the symbol a call names.
pub open spec fn symbol_text(symbol: Option<Seq<char>>) -> Seq<char> {
    match symbol {
        Some(name) => " callee @"@ + name,
        None => Seq::<char>::empty(),
    }
}

proof fn symbol_clause_is_read(
    symbol: Option<Seq<char>>,
    text: Seq<char>,
    pos: int,
    c: Option<char>,
)
    requires
        symbol matches Some(name) ==> is_word(name),
        spells_at(text, pos, symbol_text(symbol)),
        turns_to(text, pos + symbol_text(symbol).len(), c),
        c != Some('c'),
    ensures
        callee_at(text, pos) == Ok::<(Option<Seq<char>>, int), (int, ErrorView)>(
            (symbol, pos + symbol_text(symbol).len()),
        ),
        turns_to(
            text,
            pos,
            if symbol is Some {
                Some('c')
            } else {
                c
            },
        ),
{
    reveal_strlit(" callee @");
    reveal_strlit("callee");
    reveal_strlit(" @");
    reveal_strlit(" ");
    match symbol {
        Some(name) => {
            assert(symbol_text(symbol) =~= (" "@ + "callee"@) + (" @"@ + name));
            spelling_splits(text, pos, " "@ + "callee"@, " @"@ + name);
            word_is_there(text, pos, "callee"@);
            symbol_is_read(text, pos + 7, name);
        },
        None => {
            word_is_absent(text, pos, "callee"@, c);
        },
    }
}

/// What a printed call is made of.
pub ghost struct CallParts {
    pub callee: ValueId,
    pub args: Seq<ValueId>,
    pub ret: Option<TypeId>,
    pub result_address: bool,
    pub symbol: Option<Seq<char>>,
    pub alignments: Seq<nat>,
    pub deps: Seq<ValueId>,
}

impl CallParts {
    /// Whether every part is one that is read.
    pub open spec fn readable(self, context: ContextView) -> bool {
        &&& table_wf(context.types)
        &&& args_spellable(context, self.args)
        &&& self.ret matches Some(ty) ==> spellable(context.types, ty)
        &&& self.symbol matches Some(name) ==> is_word(name)
        &&& readable_numbers(self.alignments)
    }

    /// The clauses behind the result, up to the end of the line.
    #[verifier::opaque]
    spec fn clauses(self) -> Seq<char> {
        address_text(self.result_address) + (symbol_text(self.symbol) + (keyed_list(
            "argument_alignments"@,
            self.alignments,
        ) + (dep_list(self.deps, true) + "\n"@)))
    }

    /// What the parts say in writing.
    pub open spec fn tree(self, context: ContextView) -> CallTree {
        CallTree {
            callee: decimal(self.callee.0 as nat),
            args: numbers_of(self.args),
            arg_types: arg_trees(context, self.args),
            ret: arrow_tree(context, self.ret),
            result_address: self.result_address,
            symbol: self.symbol,
            argument_alignments: list_tree(self.alignments),
            deps: numbers_of(self.deps),
        }
    }

    /// The clauses of a call are read back up to the end of the line.
    #[verifier::spinoff_prover]
    #[verifier::rlimit(60)]
    proof fn clauses_are_read(self, text: Seq<char>, pos: int) -> (at: (int, int, int))
        requires
            self.symbol matches Some(name) ==> is_word(name),
            readable_numbers(self.alignments),
            spells_at(text, pos, self.clauses()),
            pos + self.clauses().len() == text.len(),
        ensures
            self.clauses().len() > 0,
            token_at(text, pos, "result_address"@) is Some == self.result_address,
            past(text, pos, "result_address"@) == at.0,
            callee_at(text, at.0) == Ok::<(Option<Seq<char>>, int), (int, ErrorView)>(
                (self.symbol, at.1),
            ),
            keyed_at(text, at.1, "argument_alignments"@, "alignment list"@) == Ok::<
                (Option<AttrView>, int),
                (int, ErrorView),
            >((list_tree(self.alignments), at.2)),
            dep_names_at(text, at.2) == Ok::<(Seq<Seq<char>>, int), (int, ErrorView)>(
                (numbers_of(self.deps), text.len() - 1),
            ),
            arrow_ends(text, pos),
    {
        reveal(CallParts::clauses);
        reveal_strlit("argument_alignments");
        reveal_strlit("\n");
        let ra = address_text(self.result_address);
        let sy = symbol_text(self.symbol);
        let al = keyed_list("argument_alignments"@, self.alignments);
        let de = dep_list(self.deps, true);
        spelling_splits(text, pos, ra, sy + (al + (de + "\n"@)));
        let q1 = pos + ra.len();
        spelling_splits(text, q1, sy, al + (de + "\n"@));
        let q2 = q1 + sy.len();
        spelling_splits(text, q2, al, de + "\n"@);
        let q3 = q2 + al.len();
        spelling_splits(text, q3, de, "\n"@);
        let q4 = q3 + de.len();
        spelled_char(text, q4, "\n"@, 0);
        assert(q4 + 1 == text.len());
        assert(skipped(text, q4 + 1) == q4 + 1);
        assert(turns_to(text, q4, None));
        dependencies_are_read(self.deps, text, q3);
        let c3 = if self.deps.len() == 0 {
            None
        } else {
            Some('|')
        };
        keyed_list_is_read(
            "argument_alignments"@,
            "alignment list"@,
            self.alignments,
            text,
            q2,
            c3,
        );
        let c2 = if self.alignments.len() == 0 {
            c3
        } else {
            Some('a')
        };
        symbol_clause_is_read(self.symbol, text, q1, c2);
        let c1 = if self.symbol is Some {
            Some('c')
        } else {
            c2
        };
        address_is_read(self.result_address, text, pos, c1);
        (q1, q2, q3)
    }

    /// A call is read back behind its mnemonic at the end of a text.
    #[verifier::spinoff_prover]
    #[verifier::rlimit(60)]
    proof fn is_read(self, context: ContextView, text: Seq<char>, pos: int)
        requires
            self.readable(context),
            0 <= pos < text.len(),
            is_space(text[pos]),
            spells_at(
                text,
                pos + 1,
                value_name(self.callee) + (context.typed_args(self.args) + (arrow_text(
                    context,
                    self.ret,
                ) + self.clauses())),
            ),
            pos + 1 + value_name(self.callee).len() + context.typed_args(self.args).len()
                + arrow_text(context, self.ret).len() + self.clauses().len() == text.len(),
        ensures
            call_at(text, pos) == Ok::<(CallTree, int), (int, ErrorView)>(
                (self.tree(context), text.len() - 1),
            ),
    {
        let name = value_name(self.callee);
        let args = context.typed_args(self.args);
        let arrow = arrow_text(context, self.ret);
        let rest = self.clauses();
        spelling_splits(text, pos + 1, name, args + (arrow + rest));
        let a = pos + 1 + name.len();
        spelling_splits(text, a, args, arrow + rest);
        let b = a + args.len();
        spelling_splits(text, b, arrow, rest);
        let c = b + arrow.len();
        arguments_are_read(context, self.args, text, a);
        name_is_read(text, pos, pos + 1, self.callee);
        let at = self.clauses_are_read(text, c);
        printed_results_are_read_back(context, self.ret, text, b);
    }
}

impl ContextView {
    /// What a call is printed from.
    pub open spec fn call_parts(self, op: OpId) -> CallParts {
        let result = self.ir.op(op)->0.results[0];
        CallParts {
            callee: self.ir.op(op)->0.operands[0],
            args: self.call_args(op),
            ret: if self.calls_for_nothing(result) {
                None
            } else {
                Some(self.type_of(result))
            },
            result_address: self.flag_attr(op, "result_address"@),
            symbol: self.str_attr(op, "callee"@),
            alignments: alignments_in(self.attr(op, "argument_alignments"@)),
            deps: self.dep_operands(op),
        }
    }
}

proof fn tail_regroups(
    a: Seq<char>,
    b: Seq<char>,
    c: Seq<char>,
    d: Seq<char>,
    e: Seq<char>,
    f: Seq<char>,
)
    ensures
        a + b + c + d + e + f == a + (b + (c + (d + (e + f)))),
{
    assert(a + b + c + d + e + f =~= a + (b + (c + (d + (e + f)))));
}

/// A printed call is read back behind its mnemonic: the function it calls, the
/// values it hands over and their types, the type of what it gives, its clauses and
/// the dependencies it takes.
pub proof fn printed_calls_are_read_back(context: ContextView, op: OpId)
    requires
        context.call_parts(op).readable(context),
    ensures
        call_at(context.func_call_text(op), context.call_binding(op).len() as int + 9) == Ok::<
            (CallTree, int),
            (int, ErrorView),
        >(
            (
                context.call_parts(op).tree(context),
                context.func_call_text(op).len() - 1,
            ),
        ),
{
    reveal_strlit("func.call ");
    let parts = context.call_parts(op);
    let text = context.func_call_text(op);
    let binding = context.call_binding(op);
    let name = value_name(parts.callee);
    let args = context.typed_args(parts.args);
    let arrow = arrow_text(context, parts.ret);
    let ra = address_text(parts.result_address);
    let sy = symbol_text(parts.symbol);
    let al = keyed_list("argument_alignments"@, parts.alignments);
    let de = dep_list(parts.deps, true);
    let rest = parts.clauses();
    assert(context.call_tail(op) == arrow + ra + sy + al + de);
    assert(context.call_tail(op) + "\n"@ == arrow + rest) by {
        reveal(CallParts::clauses);
        tail_regroups(arrow, ra, sy, al, de, "\n"@);
    }
    let more = name + (args + (arrow + rest));
    let ahead = binding + "func.call "@;
    assert(text == ahead + more) by {
        regrouped(ahead + name + args, context.call_tail(op), "\n"@);
        regrouped(ahead + name, args, arrow + rest);
        regrouped(ahead, name, args + (arrow + rest));
    }
    assert(text.subrange(ahead.len() as int, text.len() as int) =~= more);
    assert(text[binding.len() as int + 9] == ' ');
    parts.is_read(context, text, binding.len() as int + 9);
}

} // verus!

//! The `func` dialect: functions as λ nodes, and the lists an operation of it
//! carries about its arguments.

pub mod call;
pub mod call_round_trip;
pub mod declare;
pub mod definition_round_trip;
pub mod func_op;
pub mod named;
pub mod round_trip;
pub mod syntax;

use vstd::prelude::*;
use crate::attributes::attr_view;
use crate::attributes::attr_views;
use crate::attributes::AttrView;
use crate::attributes::AttributeValue;
use crate::context::Context;
use crate::context::ContextView;
use crate::dialects::builtin::global::is_power_of_two;
use crate::dialects::builtin::global::power_of_two;
use crate::error::first_failure;
use crate::error::first_failure_stays;
use crate::error::invalid;
use crate::error::verdict;
use crate::error::Error;
use crate::ids::OpId;
use crate::ids::TypeId;
use crate::text::cat2;
use crate::text::cat5;
use crate::text::decimal;
use crate::text::decimal_string;
use crate::ty::Type;

verus! {

/// The number an entry of a list is, where it is one.
pub open spec fn count_of(item: AttrView) -> Option<nat> {
    match item {
        AttrView::UInt(n) => Some(n),
        AttrView::Int(n) => if n >= 0 {
            Some(n as nat)
        } else {
            None
        },
        _ => None,
    }
}

/// The position an entry of a list names, where it names one.
pub open spec fn index_of(item: AttrView) -> Option<nat> {
    match count_of(item) {
        Some(n) => if n <= usize::MAX {
            Some(n)
        } else {
            None
        },
        None => None,
    }
}

fn count_in(item: &AttributeValue) -> (r: Option<u64>)
    ensures
        match r {
            Some(n) => count_of(item@) == Some(n as nat),
            None => count_of(item@) is None,
        },
{
    match item {
        AttributeValue::UInt(n) => Some(*n),
        AttributeValue::Int(n) => if *n >= 0 {
            Some(*n as u64)
        } else {
            None
        },
        _ => None,
    }
}

/// The alignments a list gives: zero for an entry that is none.
pub open spec fn alignments_in(attr: Option<AttrView>) -> Seq<nat> {
    match attr {
        Some(AttrView::Array(items)) => items.map_values(
            |item: AttrView|
                match count_of(item) {
                    Some(n) => n,
                    None => 0,
                },
        ),
        _ => Seq::empty(),
    }
}

/// The positions the first `n` entries of a list name, without those that name
/// none.
pub open spec fn positions_in(items: Seq<AttrView>, n: int) -> Seq<nat>
    decreases n,
{
    if n <= 0 {
        Seq::empty()
    } else {
        match index_of(items[n - 1]) {
            Some(k) => positions_in(items, n - 1).push(k),
            None => positions_in(items, n - 1),
        }
    }
}

/// The positions a list names.
pub open spec fn indices_in(attr: Option<AttrView>) -> Seq<nat> {
    match attr {
        Some(AttrView::Array(items)) => positions_in(items, items.len() as int),
        _ => Seq::empty(),
    }
}

/// What a list of numbers holds.
pub open spec fn numbers_of(list: Seq<u64>) -> Seq<nat> {
    list.map_values(|n: u64| n as nat)
}

/// What a list of positions holds.
pub open spec fn positions_of(list: Seq<usize>) -> Seq<nat> {
    list.map_values(|n: usize| n as nat)
}

/// The alignments an operation gives its arguments.
pub fn argument_alignments(context: &Context, op: OpId) -> (r: Vec<u64>)
    requires
        context.inv(),
    ensures
        numbers_of(r@) == alignments_in(context@.attr(op, "argument_alignments"@)),
{
    let mut r: Vec<u64> = Vec::new();
    let ghost want = alignments_in(context@.attr(op, "argument_alignments"@));
    match context.with_attr(op, "argument_alignments") {
        Some(AttributeValue::Array(items)) => {
            let ghost views = attr_views(items@);
            assert(views =~= attr_view(AttributeValue::Array(*items))->Array_0);
            let mut i: usize = 0;
            while i < items.len()
                invariant
                    i <= items.len(),
                    views == attr_views(items@),
                    r.len() == i,
                    forall|k: int|
                        0 <= k < i ==> (#[trigger] r@[k]) as nat == (match count_of(views[k]) {
                            Some(n) => n,
                            None => 0,
                        }),
                decreases items.len() - i,
            {
                assert(views[i as int] == items@[i as int]@);
                match count_in(&items[i]) {
                    Some(n) => r.push(n),
                    None => r.push(0),
                }
                i += 1;
            }
            assert(numbers_of(r@) =~= want);
        },
        _ => {
            assert(numbers_of(r@) =~= want);
        },
    }
    r
}

/// The positions the attribute `name` of an operation lists.
pub fn listed_positions(context: &Context, op: OpId, name: &str) -> (r: Vec<usize>)
    requires
        context.inv(),
    ensures
        positions_of(r@) == indices_in(context@.attr(op, name@)),
{
    let mut r: Vec<usize> = Vec::new();
    let ghost want = indices_in(context@.attr(op, name@));
    match context.with_attr(op, name) {
        Some(AttributeValue::Array(items)) => {
            let ghost views = attr_views(items@);
            assert(views =~= attr_view(AttributeValue::Array(*items))->Array_0);
            assert(positions_of(r@) =~= positions_in(views, 0));
            let mut i: usize = 0;
            while i < items.len()
                invariant
                    i <= items.len(),
                    views == attr_views(items@),
                    positions_of(r@) == positions_in(views, i as int),
                decreases items.len() - i,
            {
                assert(views[i as int] == items@[i as int]@);
                let ghost before = r@;
                if let Some(n) = count_in(&items[i]) {
                    if n <= usize::MAX as u64 {
                        r.push(n as usize);
                        assert(positions_of(r@) =~= positions_of(before).push(n as nat));
                    }
                }
                i += 1;
            }
        },
        _ => {
            assert(positions_of(r@) =~= want);
        },
    }
    r
}

/// Why the alignments of an operation are wrong.
pub open spec fn alignments_failure(attr: Option<AttrView>, arguments: nat, operation: Seq<char>) -> Option<
    Seq<char>,
> {
    match attr {
        None => None,
        Some(AttrView::Array(items)) => if items.len() != arguments {
            Some(operation + " argument alignment count must match its arguments"@)
        } else if exists|i: int|
            0 <= i < items.len() && !(match count_of(#[trigger] items[i]) {
                Some(n) => power_of_two(n),
                None => false,
            }) {
            Some(operation + " argument alignments must be powers of two"@)
        } else {
            None
        },
        Some(_) => Some(operation + " argument alignments must be an array"@),
    }
}

/// Checks that an operation gives each of its arguments an alignment, or none
/// of them.
pub fn verify_argument_alignments(
    context: &Context,
    op: OpId,
    arguments: usize,
    operation: &str,
) -> (r: Result<(), Error>)
    requires
        context.inv(),
    ensures
        verdict(
            r,
            alignments_failure(
                context@.attr(op, "argument_alignments"@),
                arguments as nat,
                operation@,
            ),
        ),
{
    let items = match context.with_attr(op, "argument_alignments") {
        None => {
            return Ok(());
        },
        Some(AttributeValue::Array(items)) => items,
        Some(_) => {
            return Err(
                invalid(cat2(operation, " argument alignments must be an array").as_str()),
            );
        },
    };
    let ghost views = attr_views(items@);
    assert(views =~= attr_view(AttributeValue::Array(*items))->Array_0);
    if items.len() != arguments {
        return Err(
            invalid(
                cat2(operation, " argument alignment count must match its arguments").as_str(),
            ),
        );
    }
    let mut i: usize = 0;
    while i < items.len()
        invariant
            i <= items.len(),
            views == attr_views(items@),
            items.len() == arguments,
            context@.attr(op, "argument_alignments"@) == Some(AttrView::Array(views)),
            forall|k: int|
                0 <= k < i ==> (match count_of(#[trigger] views[k]) {
                    Some(n) => power_of_two(n),
                    None => false,
                }),
        decreases items.len() - i,
    {
        assert(views[i as int] == items@[i as int]@);
        let fine = match count_in(&items[i]) {
            Some(n) => is_power_of_two(n),
            None => false,
        };
        if !fine {
            return Err(
                invalid(cat2(operation, " argument alignments must be powers of two").as_str()),
            );
        }
        i += 1;
    }
    Ok(())
}

/// Why entry `i` of a list of stack arguments is wrong.
pub open spec fn stack_entry_failure(
    items: Seq<AttrView>,
    arguments: nat,
    operation: Seq<char>,
    i: int,
) -> Option<Seq<char>> {
    match count_of(items[i]) {
        None => Some(operation + " stack argument indices must be nonnegative integers"@),
        Some(n) => if n >= arguments || (i > 0 && match count_of(items[i - 1]) {
            Some(previous) => n <= previous,
            None => false,
        }) {
            Some(operation + " stack argument indices must be ordered and in range"@)
        } else {
            None
        },
    }
}

/// Why the list of arguments on the stack is wrong.
pub open spec fn stack_arguments_failure(
    attr: Option<AttrView>,
    arguments: nat,
    operation: Seq<char>,
) -> Option<Seq<char>> {
    match attr {
        None => None,
        Some(AttrView::Array(items)) => first_failure(
            |i: int| stack_entry_failure(items, arguments, operation, i),
            items.len() as int,
        ),
        Some(_) => Some(operation + " stack arguments must be an array"@),
    }
}

/// Checks that the list of arguments on the stack names arguments, in order.
pub fn verify_stack_arguments(
    context: &Context,
    op: OpId,
    arguments: usize,
    operation: &str,
) -> (r: Result<(), Error>)
    requires
        context.inv(),
    ensures
        verdict(
            r,
            stack_arguments_failure(
                context@.attr(op, "stack_arguments"@),
                arguments as nat,
                operation@,
            ),
        ),
{
    let items = match context.with_attr(op, "stack_arguments") {
        None => {
            return Ok(());
        },
        Some(AttributeValue::Array(items)) => items,
        Some(_) => {
            return Err(invalid(cat2(operation, " stack arguments must be an array").as_str()));
        },
    };
    let ghost views = attr_views(items@);
    assert(views =~= attr_view(AttributeValue::Array(*items))->Array_0);
    let ghost at = |i: int| stack_entry_failure(views, arguments as nat, operation@, i);
    let mut previous: Option<u64> = None;
    let mut i: usize = 0;
    while i < items.len()
        invariant
            i <= items.len(),
            views == attr_views(items@),
            context@.attr(op, "stack_arguments"@) == Some(AttrView::Array(views)),
            at == (|i: int| stack_entry_failure(views, arguments as nat, operation@, i)),
            first_failure(at, i as int) is None,
            i == 0 <==> previous is None,
            i > 0 ==> count_of(views[i - 1]) == Some(previous->0 as nat),
        decreases items.len() - i,
    {
        assert(views[i as int] == items@[i as int]@);
        assert(at(i as int) == stack_entry_failure(views, arguments as nat, operation@, i as int));
        let index: u64 = match count_in(&items[i]) {
            Some(n) => n,
            None => {
                proof {
                    first_failure_stays(at, i + 1, views.len() as int);
                }
                return Err(
                    invalid(
                        cat2(
                            operation,
                            " stack argument indices must be nonnegative integers",
                        ).as_str(),
                    ),
                );
            },
        };
        let unordered = match previous {
            Some(previous) => index <= previous,
            None => false,
        };
        if index >= arguments as u64 || unordered {
            proof {
                first_failure_stays(at, i + 1, views.len() as int);
            }
            return Err(
                invalid(
                    cat2(operation, " stack argument indices must be ordered and in range").as_str(),
                ),
            );
        }
        previous = Some(index);
        i += 1;
    }
    Ok(())
}

/// Why entry `item` of a list of arguments nothing else reaches is wrong.
pub open spec fn noalias_entry_failure(context: ContextView, item: AttrView, arguments: Seq<TypeId>) -> Option<
    Seq<char>,
> {
    match index_of(item) {
        Some(n) => if n >= arguments.len() {
            Some("function noalias arguments must name the function's arguments"@)
        } else if context.types[arguments[n as int].0 as int] is Ptr {
            None
        } else {
            Some("function noalias arguments must have pointer type"@)
        },
        None => Some("function noalias arguments must name the function's arguments"@),
    }
}

/// Why the list of arguments nothing else reaches is wrong.
pub open spec fn noalias_failure(
    context: ContextView,
    attr: Option<AttrView>,
    arguments: Seq<TypeId>,
) -> Option<Seq<char>> {
    match attr {
        None => None,
        Some(AttrView::Array(items)) => first_failure(
            |i: int| noalias_entry_failure(context, items[i], arguments),
            items.len() as int,
        ),
        Some(_) => Some("function noalias arguments must be an array"@),
    }
}

/// Checks that the arguments a function's caller guarantees name memory nothing
/// else in the function reaches are pointers.
pub fn verify_noalias_arguments(context: &Context, op: OpId, arguments: &Vec<TypeId>) -> (r: Result<
    (),
    Error,
>)
    requires
        context.inv(),
        context@.types_known(arguments@),
    ensures
        verdict(r, noalias_failure(context@, context@.attr(op, "noalias"@), arguments@)),
{
    let items = match context.with_attr(op, "noalias") {
        None => {
            return Ok(());
        },
        Some(AttributeValue::Array(items)) => items,
        Some(_) => {
            return Err(invalid("function noalias arguments must be an array"));
        },
    };
    let ghost views = attr_views(items@);
    assert(views =~= attr_view(AttributeValue::Array(*items))->Array_0);
    let ghost view = context@;
    let ghost at = |i: int| noalias_entry_failure(view, views[i], arguments@);
    let mut i: usize = 0;
    while i < items.len()
        invariant
            context.inv(),
            view == context@,
            view.types_known(arguments@),
            i <= items.len(),
            views == attr_views(items@),
            view.attr(op, "noalias"@) == Some(AttrView::Array(views)),
            at == (|i: int| noalias_entry_failure(view, views[i], arguments@)),
            first_failure(at, i as int) is None,
        decreases items.len() - i,
    {
        assert(views[i as int] == items@[i as int]@);
        assert(at(i as int) == noalias_entry_failure(view, views[i as int], arguments@));
        let index: Option<usize> = match count_in(&items[i]) {
            Some(n) => if n <= usize::MAX as u64 && (n as usize) < arguments.len() {
                Some(n as usize)
            } else {
                None
            },
            None => None,
        };
        let index: usize = match index {
            Some(index) => index,
            None => {
                proof {
                    first_failure_stays(at, i + 1, views.len() as int);
                }
                return Err(
                    invalid("function noalias arguments must name the function's arguments"),
                );
            },
        };
        let pointer = match context.get_type_data(arguments[index]) {
            Type::Ptr(_) => true,
            _ => false,
        };
        if !pointer {
            proof {
                first_failure_stays(at, i + 1, views.len() as int);
            }
            return Err(invalid("function noalias arguments must have pointer type"));
        }
        i += 1;
    }
    Ok(())
}

/// The first `n` of a list of numbers, separated by commas.
pub open spec fn number_list(items: Seq<nat>, n: int) -> Seq<char>
    decreases n,
{
    if n <= 0 {
        Seq::empty()
    } else if n == 1 {
        decimal(items[0])
    } else {
        number_list(items, n - 1) + ", "@ + decimal(items[n - 1])
    }
}

/// A list as an operation carries it: ` keyword [a, b]`, and nothing where it is
/// empty.
pub open spec fn keyed_list(keyword: Seq<char>, items: Seq<nat>) -> Seq<char> {
    if items.len() == 0 {
        Seq::empty()
    } else {
        " "@ + keyword + " ["@ + number_list(items, items.len() as int) + "]"@
    }
}

/// A list as an operation carries it: ` keyword [a, b]`, and nothing where it is
/// empty.
pub fn keyed_list_text(keyword: &str, items: &Vec<u64>) -> (s: String)
    ensures
        s@ == keyed_list(keyword@, numbers_of(items@)),
{
    let mut list = String::new();
    assert(list@ =~= Seq::empty());
    if items.len() == 0 {
        return list;
    }
    let ghost all = numbers_of(items@);
    let mut i: usize = 0;
    while i < items.len()
        invariant
            i <= items.len(),
            all == numbers_of(items@),
            list@ == number_list(all, i as int),
        decreases items.len() - i,
    {
        let ghost before = list@;
        let text = decimal_string(items[i]);
        if i > 0 {
            list.append(", ");
            list.append(text.as_str());
            assert(list@ =~= before + ", "@ + text@);
        } else {
            list.append(text.as_str());
            assert(list@ =~= text@);
        }
        i += 1;
    }
    cat5(" ", keyword, " [", list.as_str(), "]")
}

/// Positions as numbers.
pub fn as_numbers(list: &Vec<usize>) -> (r: Vec<u64>)
    ensures
        numbers_of(r@) == positions_of(list@),
{
    let mut r: Vec<u64> = Vec::new();
    let mut i: usize = 0;
    while i < list.len()
        invariant
            i <= list.len(),
            r.len() == i,
            forall|k: int| 0 <= k < i ==> (#[trigger] r@[k]) == list@[k],
        decreases list.len() - i,
    {
        r.push(list[i] as u64);
        i += 1;
    }
    assert(numbers_of(r@) =~= positions_of(list@));
    r
}

/// The attribute that lists `items`.
pub open spec fn numbers_attr_view(items: Seq<nat>) -> AttrView {
    AttrView::Array(items.map_values(|n: nat| AttrView::UInt(n)))
}

/// The attribute that lists `items`.
pub fn numbers_attr(items: &Vec<u64>) -> (r: AttributeValue)
    ensures
        r@ == numbers_attr_view(numbers_of(items@)),
{
    let mut list: Vec<AttributeValue> = Vec::new();
    let mut i: usize = 0;
    while i < items.len()
        invariant
            i <= items.len(),
            list.len() == i,
            forall|k: int|
                0 <= k < i ==> attr_view(#[trigger] list@[k]) == AttrView::UInt(items@[k] as nat),
        decreases items.len() - i,
    {
        list.push(AttributeValue::UInt(items[i]));
        i += 1;
    }
    let r = AttributeValue::Array(list);
    assert(attr_view(r)->Array_0 =~= numbers_of(items@).map_values(|n: nat| AttrView::UInt(n)));
    r
}

/// Alignments an attribute was built from are the alignments it reads as.
pub proof fn alignments_are_read_back(items: Seq<nat>)
    ensures
        alignments_in(Some(numbers_attr_view(items))) == items,
{
    assert(alignments_in(Some(numbers_attr_view(items))) =~= items);
}

/// Positions an attribute was built from are the positions it reads as.
pub proof fn positions_are_read_back(items: Seq<nat>)
    requires
        forall|i: int| 0 <= i < items.len() ==> (#[trigger] items[i]) <= usize::MAX,
    ensures
        indices_in(Some(numbers_attr_view(items))) == items,
{
    let list = numbers_attr_view(items)->Array_0;
    positions_come_in_order(items, list, items.len() as int);
    assert(items.take(items.len() as int) =~= items);
}

proof fn positions_come_in_order(items: Seq<nat>, list: Seq<AttrView>, n: int)
    requires
        0 <= n <= items.len(),
        list == items.map_values(|n: nat| AttrView::UInt(n)),
        forall|i: int| 0 <= i < items.len() ==> (#[trigger] items[i]) <= usize::MAX,
    ensures
        positions_in(list, n) == items.take(n),
    decreases n,
{
    if n > 0 {
        positions_come_in_order(items, list, n - 1);
        assert(items[n - 1] <= usize::MAX);
        assert(items.take(n) =~= items.take(n - 1).push(items[n - 1]));
    } else {
        assert(items.take(n) =~= Seq::empty());
    }
}

} // verus!

//! Verification driven by an operation's declaration.
use vstd::prelude::*;
use vstd::string::*;
use crate::attributes::attr_views;
use crate::attributes::AttrView;
use crate::attributes::AttributeValue;
use crate::attributes::Predicate;
use crate::context::regions::recorded_sizes;
use crate::context::regions::segment_end;
use crate::context::regions::segment_size;
use crate::context::regions::size_of_item;
use crate::context::regions::sizes_fit;
use crate::context::regions::sizes_of;
use crate::context::Context;
use crate::context::ContextView;
use crate::context::OpHandle;
use crate::error::either;
use crate::error::invalid;
use crate::error::verdict;
use crate::error::Error;
use crate::ids::OpId;
use crate::ids::TypeId;
use crate::ids::ValueId;
use crate::schema::constraint_name;
use crate::schema::constraint_spelling;
use crate::schema::AttrSchema;
use crate::schema::AttrSchemaView;
use crate::schema::Constraint;
use crate::schema::FieldView;
use crate::schema::OpDefSpec;
use crate::schema::OpDefView;
use crate::schema::RegionKind;
use crate::text::cat2;
use crate::text::cat3;
use crate::text::cat4;
use crate::text::cat5;
use crate::text::cat6;
use crate::text::decimal;
use crate::text::decimal_string;
use crate::text::same;
use crate::text::wide_decimal_string;
use crate::ty::type_text;

verus! {

/// A declared value as a failure names it.
pub open spec fn subject(op_name: Seq<char>, kind: Seq<char>, value_name: Seq<char>) -> Seq<char> {
    op_name + " "@ + kind + " '"@ + value_name + "'"@
}

/// Whether a value that no operation defines is an argument.
pub open spec fn is_argument_value(context: ContextView, value: ValueId) -> bool {
    context.ir.value(value) is Some && (context.ir.value(value)->0.block is Some
        || context.ir.value(value)->0.region is Some)
}

/// Why `value` cannot stand where a field with the constraint `checker` is
/// declared.
pub open spec fn def_value_failure(
    context: ContextView,
    op_name: Seq<char>,
    operand: bool,
    value_name: Seq<char>,
    value: ValueId,
    checker: Constraint,
    constraint: Seq<char>,
) -> Option<Seq<char>> {
    let kind = if operand {
        "operand"@
    } else {
        "result"@
    };
    let who = subject(op_name, kind, value_name);
    let number = decimal(value.0 as nat);
    match context.ir.value(value) {
        None => Some(who + " references unknown value %"@ + number),
        Some(entry) => match entry.value.defining_op {
            Some(op) => if context.ir.op(op) is None {
                Some(who + " value %"@ + number + " references missing defining op"@)
            } else {
                constraint_failure(context, who, value, checker, constraint)
            },
            None => if !operand {
                Some(who + " value %"@ + number + " has no defining op"@)
            } else if !is_argument_value(context, value) {
                Some(
                    who + " value %"@ + number
                        + " has no defining op and is not an argument"@,
                )
            } else {
                constraint_failure(context, who, value, checker, constraint)
            },
        },
    }
}

pub open spec fn constraint_failure(
    context: ContextView,
    who: Seq<char>,
    value: ValueId,
    checker: Constraint,
    constraint: Seq<char>,
) -> Option<Seq<char>> {
    let ty = context.type_of(value);
    if checker.allows(context.types[ty.0 as int]) {
        None
    } else {
        Some(
            who + " expected constraint "@ + constraint + ", got "@ + type_text(context.types, ty),
        )
    }
}

/// Why one of the first `n` values of `values` cannot stand where `field` is
/// declared.
pub open spec fn values_failure(
    context: ContextView,
    op_name: Seq<char>,
    operand: bool,
    field: FieldView,
    checker: Constraint,
    values: Seq<ValueId>,
    n: int,
) -> Option<Seq<char>>
    decreases n,
{
    if n <= 0 {
        None
    } else {
        either(
            values_failure(context, op_name, operand, field, checker, values, n - 1),
            def_value_failure(
                context,
                op_name,
                operand,
                field.name,
                values[n - 1],
                checker,
                constraint_spelling(field.ty),
            ),
        )
    }
}

/// Why one of the first `n` declared operands does not fit the segment it is
/// given; the segments lie one after another among `operands`.
pub open spec fn segments_failure(
    context: ContextView,
    op_name: Seq<char>,
    def: OpDefView,
    items: Seq<AttrView>,
    operands: Seq<ValueId>,
    n: int,
) -> Option<Seq<char>>
    decreases n,
{
    if n <= 0 {
        None
    } else {
        let field = def.operands[n - 1];
        let size = segment_size(items[n - 1]);
        let start = segment_end(items, n - 2) as int;
        either(
            segments_failure(context, op_name, def, items, operands, n - 1),
            if !field.variadic && size != 1 {
                Some(
                    op_name + " operand '"@ + field.name + "' takes one value, got "@ + decimal(
                        size,
                    ),
                )
            } else {
                values_failure(
                    context,
                    op_name,
                    true,
                    field,
                    def.operand_checkers[n - 1],
                    operands.subrange(start, start + size),
                    size as int,
                )
            },
        )
    }
}

/// Why the operands do not fit a declaration with a variadic operand. Such an
/// operation records its operand grouping as segment sizes.
pub open spec fn variadic_failure(
    context: ContextView,
    op: OpId,
    op_name: Seq<char>,
    def: OpDefView,
) -> Option<Seq<char>> {
    let operands = context.value_operands(op);
    match recorded_sizes(context.ir.op(op)->0.attributes) {
        None => Some(op_name + " missing operand_segment_sizes attribute"@),
        Some(items) => if items.len() != def.operands.len() {
            Some(
                op_name + " expects "@ + decimal(def.operands.len()) + " operand segments, got "@
                    + decimal(items.len()),
            )
        } else if segment_end(items, items.len() - 1) != operands.len() {
            Some(
                op_name + " operand segment sizes sum to "@ + decimal(
                    segment_end(items, items.len() - 1),
                ) + ", but it has "@ + decimal(operands.len()) + " operands"@,
            )
        } else {
            segments_failure(context, op_name, def, items, operands, items.len() as int)
        },
    }
}

/// Why one of the first `n` declared operands is not met, one value each.
pub open spec fn fixed_failure(
    context: ContextView,
    op_name: Seq<char>,
    def: OpDefView,
    operands: Seq<ValueId>,
    n: int,
) -> Option<Seq<char>>
    decreases n,
{
    if n <= 0 {
        None
    } else {
        let field = def.operands[n - 1];
        either(
            fixed_failure(context, op_name, def, operands, n - 1),
            if n - 1 < operands.len() {
                def_value_failure(
                    context,
                    op_name,
                    true,
                    field.name,
                    operands[n - 1],
                    def.operand_checkers[n - 1],
                    constraint_spelling(field.ty),
                )
            } else if field.optional() {
                None
            } else {
                Some(op_name + " missing required operand '"@ + field.name + "'"@)
            },
        )
    }
}

/// Why the operands do not fit the declaration.
pub open spec fn operands_failure(
    context: ContextView,
    op: OpId,
    op_name: Seq<char>,
    def: OpDefView,
) -> Option<Seq<char>> {
    let operands = context.value_operands(op);
    if def.variadic_operands() {
        variadic_failure(context, op, op_name, def)
    } else if operands.len() > def.operands.len() {
        Some(
            op_name + " expects at most "@ + decimal(def.operands.len()) + " operands, got "@
                + decimal(operands.len()),
        )
    } else {
        fixed_failure(context, op_name, def, operands, def.operands.len() as int)
    }
}

/// Why an operation with `count` value results does not fit the declaration.
pub open spec fn result_count_failure(op_name: Seq<char>, def: OpDefView, count: nat) -> Option<
    Seq<char>,
> {
    let declared = def.results.len();
    if def.variadic_results() {
        None
    } else if def.optional_results() {
        if count > declared {
            Some(
                op_name + " expects at most "@ + decimal(declared) + " results, got "@ + decimal(
                    count,
                ),
            )
        } else {
            None
        }
    } else if count != declared {
        Some(op_name + " expects "@ + decimal(declared) + " results, got "@ + decimal(count))
    } else {
        None
    }
}

/// The declaration the result at `index` is held to: a variadic result declares
/// one for every value.
pub open spec fn result_field(def: OpDefView, index: int) -> int {
    if def.variadic_results() {
        0
    } else {
        index
    }
}

/// Why one of the first `n` value results does not fit its declaration.
pub open spec fn results_failure(
    context: ContextView,
    op_name: Seq<char>,
    def: OpDefView,
    results: Seq<ValueId>,
    n: int,
) -> Option<Seq<char>>
    decreases n,
{
    if n <= 0 {
        None
    } else {
        let at = result_field(def, n - 1);
        either(
            results_failure(context, op_name, def, results, n - 1),
            def_value_failure(
                context,
                op_name,
                false,
                def.results[at].name,
                results[n - 1],
                def.result_checkers[at],
                constraint_spelling(def.results[at].ty),
            ),
        )
    }
}

/// The type of a live value.
pub open spec fn live_type(context: ContextView, value: ValueId) -> Option<TypeId> {
    match context.ir.value(value) {
        Some(entry) => Some(entry.value.ty),
        None => None,
    }
}

/// Whether all of `values` have the type of the first.
pub open spec fn one_type(context: ContextView, values: Seq<ValueId>) -> bool {
    forall|i: int|
        0 <= i < values.len() ==> live_type(context, #[trigger] values[i]) == live_type(
            context,
            values[0],
        )
}

/// Why one of the first `n` regions is not of the kind its declaration allows.
/// A variadic group is declared once and holds every region from its position
/// on, so the last declaration covers whatever follows it.
pub open spec fn region_kinds_failure(
    context: ContextView,
    op: OpId,
    op_name: Seq<char>,
    def: OpDefView,
    n: int,
) -> Option<Seq<char>>
    decreases n,
{
    if n <= 0 || def.region_kinds.len() == 0 {
        None
    } else {
        let kind = if n - 1 < def.region_kinds.len() {
            def.region_kinds[n - 1]
        } else {
            def.region_kinds.last()
        };
        let nodes = context.is_nodes(context.ir.op(op)->0.regions[n - 1]);
        either(
            region_kinds_failure(context, op, op_name, def, n - 1),
            if kind.allows(nodes) {
                None
            } else {
                Some(
                    op_name + " declares a "@ + kind.spelling() + " region, but holds "@ + if nodes {
                        "an unordered one"@
                    } else {
                        "blocks"@
                    },
                )
            },
        )
    }
}

/// Why an operation does not fit its declaration.
pub open spec fn opdef_failure(
    context: ContextView,
    op: OpId,
    op_name: Seq<char>,
    def: OpDefView,
) -> Option<Seq<char>> {
    let results = context.value_results(op);
    either(
        region_kinds_failure(
            context,
            op,
            op_name,
            def,
            context.ir.op(op)->0.regions.len() as int,
        ),
        either(
            operands_failure(context, op, op_name, def),
            either(
                result_count_failure(op_name, def, results.len()),
                either(
                    results_failure(context, op_name, def, results, results.len() as int),
                    if def.same_type && !one_type(
                        context,
                        context.value_operands(op) + results,
                    ) {
                        Some("operand and result types must be the same"@)
                    } else {
                        None
                    },
                ),
            ),
        ),
    )
}

/// Checks one value against the field declared for it.
pub fn verify_def_value(
    context: &Context,
    op_name: &str,
    operand: bool,
    value_name: &str,
    value: ValueId,
    checker: Constraint,
    constraint: &str,
) -> (r: Result<(), Error>)
    requires
        context.inv(),
        context@.sound(),
    ensures
        verdict(
            r,
            def_value_failure(
                context@,
                op_name@,
                operand,
                value_name@,
                value,
                checker,
                constraint@,
            ),
        ),
{
    let kind = if operand {
        "operand"
    } else {
        "result"
    };
    let who = cat6(op_name, " ", kind, " '", value_name, "'");
    let number = decimal_string(value.0 as u64);
    if !context.has_value(value) {
        return Err(
            invalid(
                cat3(who.as_str(), " references unknown value %", number.as_str()).as_str(),
            ),
        );
    }
    assert(context@.value_sound(value));
    let held = context.get_value(value);
    match held.defining_op {
        Some(op) => {
            if !context.has_operation(op) {
                return Err(
                    invalid(
                        cat4(
                            who.as_str(),
                            " value %",
                            number.as_str(),
                            " references missing defining op",
                        ).as_str(),
                    ),
                );
            }
        },
        None => {
            if !operand {
                return Err(
                    invalid(
                        cat4(
                            who.as_str(),
                            " value %",
                            number.as_str(),
                            " has no defining op",
                        ).as_str(),
                    ),
                );
            }
            if !context.is_block_argument(value) && !context.is_region_port(value) {
                return Err(
                    invalid(
                        cat4(
                            who.as_str(),
                            " value %",
                            number.as_str(),
                            " has no defining op and is not an argument",
                        ).as_str(),
                    ),
                );
            }
        },
    }
    if !checker.satisfies(context.get_type_data(held.ty)) {
        let spelled = context.type_to_string(held.ty);
        return Err(
            invalid(
                cat5(
                    who.as_str(),
                    " expected constraint ",
                    constraint,
                    ", got ",
                    spelled.as_str(),
                ).as_str(),
            ),
        );
    }
    Ok(())
}

/// Checks each region an op holds against the kind its declaration allows.
pub fn verify_region_kinds(context: &Context, op: &OpHandle, op_name: &str, spec: &OpDefSpec) -> (r:
    Result<(), Error>)
    requires
        context.inv(),
        context@.readable(op.id),
    ensures
        verdict(
            r,
            region_kinds_failure(
                context@,
                op.id,
                op_name@,
                spec@,
                context@.ir.op(op.id)->0.regions.len() as int,
            ),
        ),
{
    let regions = context.regions_of(op.id);
    let declared: usize = spec.region_kinds.len();
    let ghost n = regions@.len() as int;
    if declared == 0 {
        proof {
            assert(region_kinds_failure(context@, op.id, op_name@, spec@, n) is None);
        }
        return Ok(());
    }
    let mut index: usize = 0;
    while index < regions.len()
        invariant
            context.inv(),
            index <= regions.len(),
            regions@ == context@.ir.op(op.id)->0.regions,
            n == regions@.len(),
            declared == spec.region_kinds.len(),
            declared > 0,
            region_kinds_failure(context@, op.id, op_name@, spec@, index as int) is None,
        decreases regions.len() - index,
    {
        let kind: RegionKind = if index < declared {
            spec.region_kinds[index]
        } else {
            spec.region_kinds[declared - 1]
        };
        let nodes = context.region_is_nodes(regions[index]);
        if !kind.permits(nodes) {
            let holds = if nodes {
                "an unordered one"
            } else {
                "blocks"
            };
            proof {
                region_failure_stays(context@, op.id, op_name@, spec@, index + 1, n);
            }
            return Err(
                invalid(
                    cat5(
                        op_name,
                        " declares a ",
                        kind.name(),
                        " region, but holds ",
                        holds,
                    ).as_str(),
                ),
            );
        }
        index += 1;
    }
    Ok(())
}

proof fn region_failure_stays(
    context: ContextView,
    op: OpId,
    op_name: Seq<char>,
    def: OpDefView,
    n: int,
    m: int,
)
    requires
        n <= m,
        region_kinds_failure(context, op, op_name, def, n) is Some,
    ensures
        region_kinds_failure(context, op, op_name, def, m) == region_kinds_failure(
            context,
            op,
            op_name,
            def,
            n,
        ),
    decreases m - n,
{
    if n < m {
        region_failure_stays(context, op, op_name, def, n, m - 1);
    }
}

proof fn values_failure_stays(
    context: ContextView,
    op_name: Seq<char>,
    operand: bool,
    field: FieldView,
    checker: Constraint,
    values: Seq<ValueId>,
    n: int,
    m: int,
)
    requires
        0 < n <= m,
        values_failure(context, op_name, operand, field, checker, values, n) is Some,
    ensures
        values_failure(context, op_name, operand, field, checker, values, m) == values_failure(
            context,
            op_name,
            operand,
            field,
            checker,
            values,
            n,
        ),
    decreases m - n,
{
    if n < m {
        values_failure_stays(context, op_name, operand, field, checker, values, n, m - 1);
    }
}

proof fn segments_failure_stays(
    context: ContextView,
    op_name: Seq<char>,
    def: OpDefView,
    items: Seq<AttrView>,
    operands: Seq<ValueId>,
    n: int,
    m: int,
)
    requires
        0 < n <= m,
        segments_failure(context, op_name, def, items, operands, n) is Some,
    ensures
        segments_failure(context, op_name, def, items, operands, m) == segments_failure(
            context,
            op_name,
            def,
            items,
            operands,
            n,
        ),
    decreases m - n,
{
    if n < m {
        segments_failure_stays(context, op_name, def, items, operands, n, m - 1);
    }
}

proof fn fixed_failure_stays(
    context: ContextView,
    op_name: Seq<char>,
    def: OpDefView,
    operands: Seq<ValueId>,
    n: int,
    m: int,
)
    requires
        0 < n <= m,
        fixed_failure(context, op_name, def, operands, n) is Some,
    ensures
        fixed_failure(context, op_name, def, operands, m) == fixed_failure(
            context,
            op_name,
            def,
            operands,
            n,
        ),
    decreases m - n,
{
    if n < m {
        fixed_failure_stays(context, op_name, def, operands, n, m - 1);
    }
}

proof fn results_failure_stays(
    context: ContextView,
    op_name: Seq<char>,
    def: OpDefView,
    results: Seq<ValueId>,
    n: int,
    m: int,
)
    requires
        0 < n <= m,
        results_failure(context, op_name, def, results, n) is Some,
    ensures
        results_failure(context, op_name, def, results, m) == results_failure(
            context,
            op_name,
            def,
            results,
            n,
        ),
    decreases m - n,
{
    if n < m {
        results_failure_stays(context, op_name, def, results, n, m - 1);
    }
}

proof fn segment_ends_rise(items: Seq<AttrView>, k: int, l: int)
    requires
        -1 <= k <= l < items.len(),
    ensures
        segment_end(items, k) <= segment_end(items, l),
    decreases l - k,
{
    if k < l {
        segment_ends_rise(items, k, l - 1);
    }
}

/// The sizes up to the segment at `k`, as a running total.
fn total_of(items: &Vec<AttributeValue>) -> (total: u128)
    ensures
        total == segment_end(attr_views(items@), items@.len() - 1),
{
    let ghost views = attr_views(items@);
    let mut total: u128 = 0;
    let mut i: usize = 0;
    while i < items.len()
        invariant
            i <= items.len(),
            views == attr_views(items@),
            total == segment_end(views, i - 1),
            total <= i * 0x1_0000_0000_0000_0000,
        decreases items.len() - i,
    {
        proof {
            assert(views[i as int] == items@[i as int]@);
            sizes_fit(items@[i as int]);
            assert(i * 0x1_0000_0000_0000_0000 + 0x1_0000_0000_0000_0000 <= u128::MAX)
                by (nonlinear_arith)
                requires
                    i < 0xffff_ffff_ffff_ffff,
            ;
        }
        total = total + size_of_item(&items[i]) as u128;
        i += 1;
    }
    total
}

fn verify_segments(
    context: &Context,
    op_name: &str,
    spec: &OpDefSpec,
    items: &Vec<AttributeValue>,
    operands: &Vec<ValueId>,
) -> (r: Result<(), Error>)
    requires
        context.inv(),
        context@.sound(),
        spec@.wf(),
        items@.len() == spec@.operands.len(),
        segment_end(attr_views(items@), items@.len() - 1) == operands@.len(),
    ensures
        verdict(
            r,
            segments_failure(
                context@,
                op_name@,
                spec@,
                attr_views(items@),
                operands@,
                items@.len() as int,
            ),
        ),
{
    let ghost views = attr_views(items@);
    let ghost all = items@.len() as int;
    let mut cursor: usize = 0;
    let mut index: usize = 0;
    while index < items.len()
        invariant
            context.inv(),
            context@.sound(),
            spec@.wf(),
            index <= items.len(),
            all == items@.len(),
            all == spec@.operands.len(),
            all == spec.schema.operands.len(),
            views == attr_views(items@),
            segment_end(views, all - 1) == operands@.len(),
            cursor == segment_end(views, index - 1),
            segments_failure(context@, op_name@, spec@, views, operands@, index as int) is None,
        decreases items.len() - index,
    {
        let field = spec.schema.operands[index];
        assert(spec@.operands[index as int] == field@);
        assert(views[index as int] == items@[index as int]@);
        let size: u64 = size_of_item(&items[index]);
        proof {
            segment_ends_rise(views, index as int, all - 1);
            assert(cursor + size <= operands.len());
        }
        if !field.variadic && size != 1 {
            proof {
                segments_failure_stays(context@, op_name@, spec@, views, operands@, index + 1, all);
            }
            return Err(
                invalid(
                    cat5(
                        op_name,
                        " operand '",
                        field.name,
                        "' takes one value, got ",
                        decimal_string(size).as_str(),
                    ).as_str(),
                ),
            );
        }
        let ghost segment = operands@.subrange(cursor as int, cursor + size);
        let mut k: usize = 0;
        while (k as u64) < size
            invariant
                context.inv(),
                context@.sound(),
                spec@.wf(),
                k <= size,
                index < items.len(),
                all == items@.len(),
                all == spec@.operands.len(),
                field@ == spec@.operands[index as int],
                views == attr_views(items@),
                size == segment_size(views[index as int]),
                cursor == segment_end(views, index - 1),
                cursor + size <= operands.len(),
                operands.len() == operands@.len(),
                field.variadic || size == 1,
                segment == operands@.subrange(cursor as int, cursor + size),
                segments_failure(context@, op_name@, spec@, views, operands@, index as int) is None,
                values_failure(
                    context@,
                    op_name@,
                    true,
                    field@,
                    spec@.operand_checkers[index as int],
                    segment,
                    k as int,
                ) is None,
            decreases size - k,
        {
            assert(segment[k as int] == operands@[cursor + k]);
            match verify_def_value(
                context,
                op_name,
                true,
                field.name,
                operands[cursor + k],
                spec.operand_checkers[index],
                constraint_name(field.ty),
            ) {
                Ok(_) => {},
                Err(e) => {
                    proof {
                        values_failure_stays(
                            context@,
                            op_name@,
                            true,
                            field@,
                            spec@.operand_checkers[index as int],
                            segment,
                            k + 1,
                            size as int,
                        );
                        segments_failure_stays(
                            context@,
                            op_name@,
                            spec@,
                            views,
                            operands@,
                            index + 1,
                            all,
                        );
                    }
                    return Err(e);
                },
            }
            k += 1;
        }
        cursor = cursor + size as usize;
        index += 1;
    }
    Ok(())
}

fn verify_variadic(context: &Context, op: &OpHandle, op_name: &str, spec: &OpDefSpec) -> (r: Result<
    (),
    Error,
>)
    requires
        context.inv(),
        context@.sound(),
        context@.ir.op(op.id) is Some,
        spec@.wf(),
    ensures
        verdict(r, variadic_failure(context@, op.id, op_name@, spec@)),
{
    assert(context@.op_sound(op.id));
    let operands = op.value_operands(context).to_vec();
    let items = match sizes_of(&context.op_attributes(op.id)) {
        Some(items) => items,
        None => {
            return Err(
                invalid(cat2(op_name, " missing operand_segment_sizes attribute").as_str()),
            );
        },
    };
    let declared: usize = spec.schema.operands.len();
    if items.len() != declared {
        return Err(
            invalid(
                cat5(
                    op_name,
                    " expects ",
                    decimal_string(declared as u64).as_str(),
                    " operand segments, got ",
                    decimal_string(items.len() as u64).as_str(),
                ).as_str(),
            ),
        );
    }
    let total: u128 = total_of(&items);
    if total != operands.len() as u128 {
        return Err(
            invalid(
                cat6(
                    op_name,
                    " operand segment sizes sum to ",
                    wide_decimal_string(total).as_str(),
                    ", but it has ",
                    decimal_string(operands.len() as u64).as_str(),
                    " operands",
                ).as_str(),
            ),
        );
    }
    verify_segments(context, op_name, spec, &items, &operands)
}

fn verify_fixed(
    context: &Context,
    op_name: &str,
    spec: &OpDefSpec,
    operands: &Vec<ValueId>,
) -> (r: Result<(), Error>)
    requires
        context.inv(),
        context@.sound(),
        spec@.wf(),
    ensures
        verdict(
            r,
            fixed_failure(
                context@,
                op_name@,
                spec@,
                operands@,
                spec@.operands.len() as int,
            ),
        ),
{
    let ghost all = spec@.operands.len() as int;
    let mut index: usize = 0;
    while index < spec.schema.operands.len()
        invariant
            context.inv(),
            context@.sound(),
            spec@.wf(),
            index <= spec.schema.operands.len(),
            all == spec@.operands.len(),
            all == spec.schema.operands.len(),
            fixed_failure(context@, op_name@, spec@, operands@, index as int) is None,
        decreases spec.schema.operands.len() - index,
    {
        let field = spec.schema.operands[index];
        assert(spec@.operands[index as int] == field@);
        if index < operands.len() {
            match verify_def_value(
                context,
                op_name,
                true,
                field.name,
                operands[index],
                spec.operand_checkers[index],
                constraint_name(field.ty),
            ) {
                Ok(_) => {},
                Err(e) => {
                    proof {
                        fixed_failure_stays(context@, op_name@, spec@, operands@, index + 1, all);
                    }
                    return Err(e);
                },
            }
        } else if !field.is_optional() {
            proof {
                fixed_failure_stays(context@, op_name@, spec@, operands@, index + 1, all);
            }
            return Err(
                invalid(
                    cat4(op_name, " missing required operand '", field.name, "'").as_str(),
                ),
            );
        }
        index += 1;
    }
    Ok(())
}

fn verify_result_count(op_name: &str, spec: &OpDefSpec, count: usize) -> (r: Result<(), Error>)
    ensures
        verdict(r, result_count_failure(op_name@, spec@, count as nat)),
{
    let declared: usize = spec.schema.results.len();
    if spec.has_variadic_results() {
        return Ok(());
    }
    if spec.has_optional_results() {
        if count > declared {
            return Err(
                invalid(
                    cat5(
                        op_name,
                        " expects at most ",
                        decimal_string(declared as u64).as_str(),
                        " results, got ",
                        decimal_string(count as u64).as_str(),
                    ).as_str(),
                ),
            );
        }
    } else if count != declared {
        return Err(
            invalid(
                cat5(
                    op_name,
                    " expects ",
                    decimal_string(declared as u64).as_str(),
                    " results, got ",
                    decimal_string(count as u64).as_str(),
                ).as_str(),
            ),
        );
    }
    Ok(())
}

fn verify_results(
    context: &Context,
    op_name: &str,
    spec: &OpDefSpec,
    results: &Vec<ValueId>,
) -> (r: Result<(), Error>)
    requires
        context.inv(),
        context@.sound(),
        spec@.wf(),
        result_count_failure(op_name@, spec@, results@.len()) is None,
    ensures
        verdict(
            r,
            results_failure(context@, op_name@, spec@, results@, results@.len() as int),
        ),
{
    let variadic = spec.has_variadic_results();
    let ghost all = results@.len() as int;
    let mut index: usize = 0;
    while index < results.len()
        invariant
            context.inv(),
            context@.sound(),
            spec@.wf(),
            index <= results.len(),
            all == results@.len(),
            variadic == spec@.variadic_results(),
            spec@.results.len() == spec.schema.results.len(),
            variadic ==> spec@.results.len() > 0,
            !variadic ==> results@.len() <= spec@.results.len(),
            results_failure(context@, op_name@, spec@, results@, index as int) is None,
        decreases results.len() - index,
    {
        let at: usize = if variadic {
            0
        } else {
            index
        };
        let field = spec.schema.results[at];
        assert(spec@.results[at as int] == field@);
        match verify_def_value(
            context,
            op_name,
            false,
            field.name,
            results[index],
            spec.result_checkers[at],
            constraint_name(field.ty),
        ) {
            Ok(_) => {},
            Err(e) => {
                proof {
                    results_failure_stays(context@, op_name@, spec@, results@, index + 1, all);
                }
                return Err(e);
            },
        }
        index += 1;
    }
    Ok(())
}

fn type_if_live(context: &Context, value: ValueId) -> (r: Option<TypeId>)
    requires
        context.inv(),
    ensures
        r == live_type(context@, value),
{
    if context.has_value(value) {
        Some(context.get_value(value).ty)
    } else {
        None
    }
}

fn same_option(a: Option<TypeId>, b: Option<TypeId>) -> (r: bool)
    ensures
        r == (a == b),
{
    match (a, b) {
        (Some(x), Some(y)) => x == y,
        (None, None) => true,
        _ => false,
    }
}

fn have_one_type(context: &Context, values: &Vec<ValueId>) -> (r: bool)
    requires
        context.inv(),
    ensures
        r == one_type(context@, values@),
{
    let mut i: usize = 0;
    while i < values.len()
        invariant
            context.inv(),
            i <= values.len(),
            forall|j: int|
                0 <= j < i ==> live_type(context@, #[trigger] values@[j]) == live_type(
                    context@,
                    values@[0],
                ),
        decreases values.len() - i,
    {
        if !same_option(type_if_live(context, values[i]), type_if_live(context, values[0])) {
            assert(live_type(context@, values@[i as int]) != live_type(context@, values@[0]));
            return false;
        }
        i += 1;
    }
    true
}

/// Checks an operation's regions, operands and results against its
/// declaration.
pub fn verify_opdef_operands(
    context: &Context,
    op: &OpHandle,
    op_name: &str,
    spec: &OpDefSpec,
) -> (r: Result<(), Error>)
    requires
        context.inv(),
        context@.sound(),
        context@.ir.op(op.id) is Some,
        spec@.wf(),
    ensures
        verdict(r, opdef_failure(context@, op.id, op_name@, spec@)),
{
    assert(context@.op_sound(op.id));
    match verify_region_kinds(context, op, op_name, spec) {
        Ok(_) => {},
        Err(e) => {
            return Err(e);
        },
    }
    let operands = op.value_operands(context).to_vec();
    let results = op.value_results(context).to_vec();
    let checked = if spec.has_variadic_operands() {
        verify_variadic(context, op, op_name, spec)
    } else if operands.len() > spec.schema.operands.len() {
        Err(
            invalid(
                cat5(
                    op_name,
                    " expects at most ",
                    decimal_string(spec.schema.operands.len() as u64).as_str(),
                    " operands, got ",
                    decimal_string(operands.len() as u64).as_str(),
                ).as_str(),
            ),
        )
    } else {
        verify_fixed(context, op_name, spec, &operands)
    };
    assert(verdict(checked, operands_failure(context@, op.id, op_name@, spec@)));
    match checked {
        Ok(_) => {},
        Err(e) => {
            return Err(e);
        },
    }
    match verify_result_count(op_name, spec, results.len()) {
        Ok(_) => {},
        Err(e) => {
            return Err(e);
        },
    }
    match verify_results(context, op_name, spec, &results) {
        Ok(_) => {},
        Err(e) => {
            return Err(e);
        },
    }
    if spec.same_type {
        let mut all = operands;
        let ghost front = all@;
        let ghost back = results@;
        let mut results = results;
        all.append(&mut results);
        assert(all@ =~= front + back);
        if !have_one_type(context, &all) {
            return Err(invalid("operand and result types must be the same"));
        }
    }
    Ok(())
}

/// Whether an attribute is of the type a declaration names.
pub open spec fn attr_type_holds(ty: Seq<char>, value: AttrView) -> bool {
    ||| ty == "any"@
    ||| ty == "Str"@ && value is Str
    ||| ty == "Int"@ && value is Int
    ||| ty == "UInt"@ && value is UInt
    ||| ty == "F32"@ && value is F32
    ||| ty == "F64"@ && value is F64
    ||| ty == "Bool"@ && value is Bool
    ||| ty == "Array"@ && value is Array
    ||| ty == "Dict"@ && value is Dict
    ||| ty == "Register"@ && (value is Physical || value is Assigned)
    ||| ty == "Type"@ && value is Type
    ||| ty == "Block"@ && value is Block
    ||| ty == "Predicate"@ && value is Predicate
}

/// Whether an attribute is of the type a declaration names.
pub fn attr_type_matches(ty: &str, value: &AttributeValue) -> (r: bool)
    ensures
        r == attr_type_holds(ty@, value@),
{
    let name = match value {
        AttributeValue::Str(_) => "Str",
        AttributeValue::Int(_) => "Int",
        AttributeValue::UInt(_) => "UInt",
        AttributeValue::F32(_) => "F32",
        AttributeValue::F64(_) => "F64",
        AttributeValue::Bool(_) => "Bool",
        AttributeValue::Array(_) => "Array",
        AttributeValue::Dict(_) => "Dict",
        AttributeValue::Register(_) => "Register",
        AttributeValue::Type(_) => "Type",
        AttributeValue::Block(_) => "Block",
        AttributeValue::Predicate(_) => "Predicate",
        AttributeValue::Value(_) => {
            return same(ty, "any");
        },
    };
    same(ty, "any") || same(ty, name)
}

/// The names of the first `n` predicates, separated by commas.
pub open spec fn predicate_names(vocabulary: Seq<Predicate>, n: int) -> Seq<char>
    decreases n,
{
    if n <= 0 {
        Seq::empty()
    } else if n == 1 {
        vocabulary[0].spelling()
    } else {
        predicate_names(vocabulary, n - 1) + ", "@ + vocabulary[n - 1].spelling()
    }
}

fn predicate_list(vocabulary: &Vec<Predicate>) -> (s: String)
    ensures
        s@ == predicate_names(vocabulary@, vocabulary@.len() as int),
{
    let mut s = String::new();
    let mut i: usize = 0;
    while i < vocabulary.len()
        invariant
            i <= vocabulary.len(),
            s@ == predicate_names(vocabulary@, i as int),
        decreases vocabulary.len() - i,
    {
        if i > 0 {
            s.append(", ");
        }
        let ghost before = s@;
        s.append(vocabulary[i].name());
        if i == 0 {
            assert(s@ =~= vocabulary@[0].spelling());
        }
        i += 1;
    }
    s
}

/// Why an operation does not hold the attribute `spec` declares.
pub open spec fn attribute_failure(
    context: ContextView,
    op: OpId,
    op_name: Seq<char>,
    spec: AttrSchemaView,
) -> Option<Seq<char>> {
    match context.attr(op, spec.name) {
        None => Some(op_name + " missing required attribute '"@ + spec.name + "'"@),
        Some(value) => if !attr_type_holds(spec.ty, value) {
            Some(op_name + " attribute '"@ + spec.name + "' expected type '"@ + spec.ty + "'"@)
        } else {
            match value {
                AttrView::Predicate(p) => if spec.vocabulary.len() > 0
                    && !spec.vocabulary.contains(p) {
                    Some(
                        op_name + " predicate '"@ + p.spelling()
                            + "' is not in its vocabulary (expected "@ + predicate_names(
                            spec.vocabulary,
                            spec.vocabulary.len() as int,
                        ) + ")"@,
                    )
                } else {
                    None
                },
                _ => None,
            }
        },
    }
}

/// Why an operation does not hold one of the first `n` declared attributes.
pub open spec fn attributes_failure(
    context: ContextView,
    op: OpId,
    op_name: Seq<char>,
    specs: Seq<AttrSchema>,
    n: int,
) -> Option<Seq<char>>
    decreases n,
{
    if n <= 0 {
        None
    } else {
        either(
            attributes_failure(context, op, op_name, specs, n - 1),
            attribute_failure(context, op, op_name, specs[n - 1]@),
        )
    }
}

proof fn attributes_failure_stays(
    context: ContextView,
    op: OpId,
    op_name: Seq<char>,
    specs: Seq<AttrSchema>,
    n: int,
    m: int,
)
    requires
        0 < n <= m,
        attributes_failure(context, op, op_name, specs, n) is Some,
    ensures
        attributes_failure(context, op, op_name, specs, m) == attributes_failure(
            context,
            op,
            op_name,
            specs,
            n,
        ),
    decreases m - n,
{
    if n < m {
        attributes_failure_stays(context, op, op_name, specs, n, m - 1);
    }
}

fn in_vocabulary(vocabulary: &Vec<Predicate>, predicate: Predicate) -> (r: bool)
    ensures
        r == vocabulary@.contains(predicate),
{
    let mut i: usize = 0;
    while i < vocabulary.len()
        invariant
            i <= vocabulary.len(),
            forall|j: int| 0 <= j < i ==> vocabulary@[j] != predicate,
        decreases vocabulary.len() - i,
    {
        if vocabulary[i] == predicate {
            return true;
        }
        i += 1;
    }
    false
}

fn verify_attribute(context: &Context, op: &OpHandle, op_name: &str, spec: &AttrSchema) -> (r:
    Result<(), Error>)
    requires
        context.inv(),
    ensures
        verdict(r, attribute_failure(context@, op.id, op_name@, spec@)),
{
    let value = match op.attr(context, spec.name) {
        Some(value) => value,
        None => {
            return Err(
                invalid(
                    cat4(op_name, " missing required attribute '", spec.name, "'").as_str(),
                ),
            );
        },
    };
    if !attr_type_matches(spec.ty, &value) {
        return Err(
            invalid(
                cat6(
                    op_name,
                    " attribute '",
                    spec.name,
                    "' expected type '",
                    spec.ty,
                    "'",
                ).as_str(),
            ),
        );
    }
    if let AttributeValue::Predicate(predicate) = value {
        if spec.vocabulary.len() > 0 && !in_vocabulary(&spec.vocabulary, predicate) {
            return Err(
                invalid(
                    cat6(
                        op_name,
                        " predicate '",
                        predicate.name(),
                        "' is not in its vocabulary (expected ",
                        predicate_list(&spec.vocabulary).as_str(),
                        ")",
                    ).as_str(),
                ),
            );
        }
    }
    Ok(())
}

/// Checks that an operation holds every declared attribute.
pub fn verify_opdef_attributes(
    context: &Context,
    op: &OpHandle,
    op_name: &str,
    specs: &Vec<AttrSchema>,
) -> (r: Result<(), Error>)
    requires
        context.inv(),
    ensures
        verdict(r, attributes_failure(context@, op.id, op_name@, specs@, specs@.len() as int)),
{
    let mut i: usize = 0;
    while i < specs.len()
        invariant
            context.inv(),
            i <= specs.len(),
            attributes_failure(context@, op.id, op_name@, specs@, i as int) is None,
        decreases specs.len() - i,
    {
        match verify_attribute(context, op, op_name, &specs[i]) {
            Ok(_) => {},
            Err(e) => {
                proof {
                    attributes_failure_stays(
                        context@,
                        op.id,
                        op_name@,
                        specs@,
                        i + 1,
                        specs@.len() as int,
                    );
                }
                return Err(e);
            },
        }
        i += 1;
    }
    Ok(())
}

/// An operation that fits its declaration has only live operands and results,
/// each of a type its field allows.
pub proof fn verified_operands_are_typed(
    context: ContextView,
    op: OpId,
    op_name: Seq<char>,
    def: OpDefView,
    i: int,
)
    requires
        !def.variadic_operands(),
        opdef_failure(context, op, op_name, def) is None,
        0 <= i < context.value_operands(op).len(),
    ensures
        context.ir.value(context.value_operands(op)[i]) is Some,
        def.operand_checkers[i].allows(
            context.types[context.type_of(context.value_operands(op)[i]).0 as int],
        ),
{
    fixed_values_hold(context, op_name, def, context.value_operands(op), i, def.operands.len() as int);
}

proof fn fixed_values_hold(
    context: ContextView,
    op_name: Seq<char>,
    def: OpDefView,
    operands: Seq<ValueId>,
    i: int,
    n: int,
)
    requires
        0 <= i < n,
        i < operands.len(),
        fixed_failure(context, op_name, def, operands, n) is None,
    ensures
        context.ir.value(operands[i]) is Some,
        def.operand_checkers[i].allows(context.types[context.type_of(operands[i]).0 as int]),
    decreases n,
{
    if i < n - 1 {
        fixed_values_hold(context, op_name, def, operands, i, n - 1);
    }
}

} // verus!

//! What the checks of single operations accept, said of the operations
//! themselves: of their operands, results, attributes and types.
use vstd::prelude::*;
use crate::attributes::AttrView;
use crate::context::ContextView;
use crate::dialects::builtin::global::power_of_two;
use crate::dialects::checks::Check;
use crate::dialects::func::alignments_failure;
use crate::dialects::func::count_of;
use crate::dialects::func::func_op::port_types_of;
use crate::dialects::func::index_of;
use crate::dialects::func::noalias_entry_failure;
use crate::dialects::func::noalias_failure;
use crate::dialects::func::stack_arguments_failure;
use crate::dialects::func::stack_entry_failure;
use crate::dialects::scf::inits_failure;
use crate::error::first_failure;
use crate::error::no_failure_anywhere;
use crate::ids::OpId;
use crate::ids::RegionId;
use crate::ids::TypeId;
use crate::ty::TypeView;

verus! {

/// A call that is accepted calls a function. For a function without further
/// arguments it passes as many values as the function has parameters, each of
/// its parameter's type; for one with further arguments, at least as many as
/// there are parameters before them, each of those of its parameter's type. Its
/// result has the type the function returns. Where the result goes to an
/// address, the first argument is a pointer; where it names alignments, there is
/// one for each argument. A call of which all this is true is accepted.
pub proof fn accepted_calls_fit_their_callee(
    context: ContextView,
    op: OpId,
    index: Option<u32>,
    params: Seq<TypeId>,
    ret: TypeId,
)
    requires
        context.value_operands(op).len() > 0,
        context.types[context.type_of(context.ir.op(op)->0.operands[0]).0 as int] == TypeView::Fn(
            params,
            ret,
        ),
    ensures
        context.check_failure(op, Check::Call, index) is None <==> {
            let passed = context.value_operands(op);
            let further = params.len() > 0 && context.types[params[params.len() - 1].0 as int]
                == TypeView::VarArgs;
            &&& !further ==> passed.len() == params.len() + 1
            &&& further ==> passed.len() >= params.len()
            &&& forall|i: int|
                #![trigger params[i]]
                0 <= i < params.len() && !(further && i == params.len() - 1) ==> context.type_of(
                    passed[i + 1],
                ) == params[i]
            &&& context.type_of(context.ir.op(op)->0.results[0]) == ret
            &&& context.flag_attr(op, "result_address"@) ==> passed.len() > 1
                && context.types[context.type_of(passed[1]).0 as int] is Ptr
            &&& match context.attr(op, "argument_alignments"@) {
                None => true,
                Some(AttrView::Array(items)) => items.len() + 1 == passed.len() && forall|i: int|
                    0 <= i < items.len() ==> count_of(#[trigger] items[i]) is Some && power_of_two(
                        count_of(items[i])->0,
                    ),
                Some(_) => false,
            }
        },
{
    let passed = context.value_operands(op);
    let args = context.types_of(context.call_args(op));
    let further = params.len() > 0 && context.types[params[params.len() - 1].0 as int]
        == TypeView::VarArgs;
    assert(args.len() == passed.len() - 1);
    assert forall|i: int| 0 <= i < args.len() implies #[trigger] args[i] == context.type_of(
        passed[i + 1],
    ) by {}
    assert(context.variadic(params) == further);
    let fits = {
        &&& !further ==> passed.len() == params.len() + 1
        &&& further ==> passed.len() >= params.len()
        &&& forall|i: int|
            #![trigger params[i]]
            0 <= i < params.len() && !(further && i == params.len() - 1) ==> context.type_of(
                passed[i + 1],
            ) == params[i]
    };
    if context.accepts(params, args) {
        assert forall|i: int|
            #![trigger params[i]]
            0 <= i < params.len() && !(further && i == params.len() - 1) implies context.type_of(
            passed[i + 1],
        ) == params[i] by {
            if further {
                assert(args.take(params.len() - 1)[i] == params.drop_last()[i]);
                assert(args[i] == params[i]);
            } else {
                assert(args[i] == params[i]);
            }
        }
        assert(fits);
    }
    if fits {
        if further {
            assert(args.take(params.len() - 1) =~= params.drop_last()) by {
                assert forall|i: int| 0 <= i < params.len() - 1 implies args.take(
                    params.len() - 1,
                )[i] == params.drop_last()[i] by {
                    assert(params.drop_last()[i] == params[i]);
                }
            }
        } else {
            assert(args =~= params) by {
                assert forall|i: int| 0 <= i < params.len() implies args[i] == params[i] by {}
            }
        }
        assert(context.accepts(params, args));
    }
    assert(fits == context.accepts(params, args));
}

/// No call of what is not a function is accepted.
pub proof fn only_functions_are_called(context: ContextView, op: OpId, index: Option<u32>)
    requires
        !(context.types[context.type_of(context.ir.op(op)->0.operands[0]).0 as int] is Fn),
    ensures
        context.check_failure(op, Check::Call, index) is Some,
{
}

/// Making a tuple is accepted exactly where the result is a tuple with one
/// element for each operand, of the operand's type.
pub proof fn tuples_are_made_of_their_elements(context: ContextView, op: OpId, index: Option<u32>)
    ensures
        context.check_failure(op, Check::MakeTuple, index) is None <==> {
            let operands = context.ir.op(op)->0.operands;
            match context.types[context.type_of(context.ir.op(op)->0.results[0]).0 as int] {
                TypeView::Tuple(elements) => elements.len() == operands.len() && forall|i: int|
                    0 <= i < operands.len() ==> context.type_of(#[trigger] operands[i])
                        == elements[i],
                _ => false,
            }
        },
{
    let operands = context.ir.op(op)->0.operands;
    match context.types[context.type_of(context.ir.op(op)->0.results[0]).0 as int] {
        TypeView::Tuple(elements) => {
            let at = |i: int| context.element_failure(operands[i], elements[i], i);
            no_failure_anywhere(at, operands.len() as int);
            assert forall|i: int|
                #![trigger at(i)]
                #![trigger operands[i]]
                0 <= i < operands.len() implies (at(i) is None <==> context.type_of(operands[i])
                == elements[i]) by {}
        },
        _ => {},
    }
}

/// Taking an element of a tuple is accepted exactly where the operand is a
/// tuple that has the element, and the result has the element's type.
pub proof fn tuples_give_their_elements(
    context: ContextView,
    op: OpId,
    index: Option<u32>,
    position: nat,
)
    requires
        context.uint_attr(op, "index"@) == Some(position),
    ensures
        context.check_failure(op, Check::TupleGet, index) is None <==> match context.types[
            context.type_of(context.ir.op(op)->0.operands[0]).0 as int
        ] {
            TypeView::Tuple(elements) => position < elements.len() && context.type_of(
                context.ir.op(op)->0.results[0],
            ) == elements[position as int],
            _ => false,
        },
{
}

/// A cast of bits is accepted exactly between integers, floating-point numbers
/// and indices of one width, where an index has a width only where a layout
/// gives it one.
pub proof fn casts_keep_the_width(
    context: ContextView,
    op: OpId,
    index: Option<u32>,
)
    ensures
        context.check_failure(op, Check::Bitcast, index) is None <==> {
            let from = context.types[context.type_of(context.ir.op(op)->0.operands[0]).0 as int];
            let to = context.types[context.type_of(context.ir.op(op)->0.results[0]).0 as int];
            let bits = |t: TypeView| match t {
                TypeView::Integer(width) => Some(width as int),
                TypeView::Float(exponent, mantissa) => Some(1 + exponent + mantissa),
                TypeView::Index => match index {
                    Some(width) => Some(width as int),
                    None => None,
                },
                _ => None,
            };
            bits(from) is Some && bits(from) == bits(to)
        },
{
}

/// A load gives, and a store takes, any value but a function.
pub proof fn functions_stay_out_of_memory(context: ContextView, op: OpId, index: Option<u32>)
    ensures
        context.check_failure(op, Check::Load, index) is Some <==> context.types[context.type_of(
            context.ir.op(op)->0.results[0],
        ).0 as int] is Fn,
        context.check_failure(op, Check::Store, index) is Some <==> context.types[context.type_of(
            context.ir.op(op)->0.operands[0],
        ).0 as int] is Fn,
{
}

/// A copy of bytes counts them in sixty-four bits, and so does a fill, which
/// takes the byte as a value of eight bits.
pub proof fn copies_and_fills_count_bytes(context: ContextView, op: OpId, index: Option<u32>)
    ensures
        context.check_failure(op, Check::Memcpy, index) is None <==> context.types[context.type_of(
            context.ir.op(op)->0.operands[2],
        ).0 as int] == TypeView::Integer(64),
        context.check_failure(op, Check::Memset, index) is None <==> context.types[context.type_of(
            context.ir.op(op)->0.operands[1],
        ).0 as int] == TypeView::Integer(8) && context.types[context.type_of(
            context.ir.op(op)->0.operands[2],
        ).0 as int] == TypeView::Integer(64),
{
}

/// A join takes at least one state and leaves one; a split leaves at least one;
/// neither leaves anything else.
pub proof fn joins_and_splits_leave_states(context: ContextView, op: OpId, index: Option<u32>)
    ensures
        context.check_failure(op, Check::Join, index) is None <==> context.ir.op(
            op,
        )->0.operands.len() > 0 && context.filtered(context.ir.op(op)->0.results, true).len() == 1
            && context.filtered(context.ir.op(op)->0.results, false).len() == 0,
        context.check_failure(op, Check::Split, index) is None <==> context.ir.op(
            op,
        )->0.results.len() > 0 && context.filtered(context.ir.op(op)->0.results, true).len()
            == context.ir.op(op)->0.results.len() && context.filtered(
            context.ir.op(op)->0.results,
            false,
        ).len() == 0,
{
}

/// A global is accepted exactly where it is external and declares no storage, or
/// is not and has either bytes or a size, not both, and an alignment that is a
/// power of two.
pub proof fn globals_declare_their_storage(context: ContextView, op: OpId, index: Option<u32>)
    ensures
        context.check_failure(op, Check::Global, index) is None <==> {
            let bytes = context.global_bytes(op) is Some;
            let size = context.uint_attr(op, "size"@) is Some;
            let align = context.uint_attr(op, "align"@);
            if context.flag_attr(op, "external"@) {
                !bytes && !size && align is None
            } else {
                (bytes || size) && !(bytes && size) && align is Some && power_of_two(align->0)
            }
        },
{
}

proof fn no_alignment_fails(attr: Option<AttrView>, arguments: nat, operation: Seq<char>)
    ensures
        alignments_failure(attr, arguments, operation) is None <==> aligned(attr, arguments),
{
}

/// Whether alignments are given to no argument, or to each one that is a power of
/// two.
pub open spec fn aligned(attr: Option<AttrView>, arguments: nat) -> bool {
    match attr {
        None => true,
        Some(AttrView::Array(items)) => items.len() == arguments && forall|i: int|
            0 <= i < items.len() ==> count_of(#[trigger] items[i]) is Some && power_of_two(
                count_of(items[i])->0,
            ),
        Some(_) => false,
    }
}

/// Whether the arguments passed on the stack are named in order, each once, by
/// their positions.
pub open spec fn stacked(attr: Option<AttrView>, arguments: nat) -> bool {
    match attr {
        None => true,
        Some(AttrView::Array(items)) => forall|i: int|
            #![trigger items[i]]
            0 <= i < items.len() ==> {
                &&& count_of(items[i]) is Some
                &&& count_of(items[i])->0 < arguments
                &&& i > 0 ==> count_of(items[i - 1])->0 < count_of(items[i])->0
            },
        Some(_) => false,
    }
}

proof fn no_stack_argument_fails(attr: Option<AttrView>, arguments: nat, operation: Seq<char>)
    ensures
        stack_arguments_failure(attr, arguments, operation) is None <==> stacked(attr, arguments),
{
    match attr {
        Some(AttrView::Array(items)) => {
            let fails = |i: int| stack_entry_failure(items, arguments, operation, i);
            let n = items.len() as int;
            no_failure_anywhere(fails, n);
            if first_failure(fails, n) is None {
                assert forall|i: int|
                    #![trigger items[i]]
                    0 <= i < n implies {
                    &&& count_of(items[i]) is Some
                    &&& count_of(items[i])->0 < arguments
                    &&& i > 0 ==> count_of(items[i - 1])->0 < count_of(items[i])->0
                } by {
                    assert(fails(i) is None);
                    if i > 0 {
                        assert(fails(i - 1) is None);
                    }
                }
            }
            if stacked(attr, arguments) {
                assert forall|i: int| 0 <= i < n implies (#[trigger] fails(i)) is None by {
                    assert(count_of(items[i]) is Some);
                }
            }
        },
        _ => {},
    }
}

/// Whether the arguments nothing else reaches are named by their positions, and
/// are pointers.
pub open spec fn unaliased(
    context: ContextView,
    attr: Option<AttrView>,
    arguments: Seq<TypeId>,
) -> bool {
    match attr {
        None => true,
        Some(AttrView::Array(items)) => forall|i: int|
            #![trigger items[i]]
            0 <= i < items.len() ==> {
                &&& index_of(items[i]) is Some
                &&& index_of(items[i])->0 < arguments.len()
                &&& context.types[arguments[index_of(items[i])->0 as int].0 as int] is Ptr
            },
        Some(_) => false,
    }
}

proof fn no_alias_fails(context: ContextView, attr: Option<AttrView>, arguments: Seq<TypeId>)
    ensures
        noalias_failure(context, attr, arguments) is None <==> unaliased(context, attr, arguments),
{
    match attr {
        Some(AttrView::Array(items)) => {
            let fails = |i: int| noalias_entry_failure(context, items[i], arguments);
            let n = items.len() as int;
            no_failure_anywhere(fails, n);
            if first_failure(fails, n) is None {
                assert forall|i: int|
                    #![trigger items[i]]
                    0 <= i < n implies {
                    &&& index_of(items[i]) is Some
                    &&& index_of(items[i])->0 < arguments.len()
                    &&& context.types[arguments[index_of(items[i])->0 as int].0 as int] is Ptr
                } by {
                    assert(fails(i) is None);
                }
            }
            if unaliased(context, attr, arguments) {
                assert forall|i: int| 0 <= i < n implies (#[trigger] fails(i)) is None by {
                    assert(index_of(items[i]) is Some);
                }
            }
        },
        _ => {},
    }
}

/// A definition that is accepted is a function whose parameters are those of its
/// body that the ABI does not supply, of their types and in their order, then
/// whatever stands for further arguments; it returns the type it declares, and an
/// unordered body names just that, or nothing where that is the unit type. Its
/// alignments, stack arguments and unaliased arguments are as they must be, only
/// one with further arguments has arguments the ABI supplies, and where its result
/// goes to an address its first argument is a pointer.
pub proof fn accepted_functions_have_the_type_of_their_body(
    context: ContextView,
    op: OpId,
    index: Option<u32>,
)
    requires
        context.check_failure(op, Check::Func, index) is None,
    ensures
        ({
            let ports = context.func_params(op);
            let value = context.ir.op(op)->0.results[0];
            let supplied = match context.uint_attr(op, "implicit_arguments"@) {
                Some(n) => n as int,
                None => 0,
            };
            match context.types[context.type_of(value).0 as int] {
                TypeView::Fn(params, ret) => {
                    let further = params.len() > 0 && context.types[params[params.len()
                        - 1].0 as int] == TypeView::VarArgs;
                    let n = ports.len() - supplied;
                    &&& 0 <= n
                    &&& params.len() == if further {
                        n + 1
                    } else {
                        n
                    }
                    &&& forall|i: int| 0 <= i < n ==> #[trigger] params[i] == ports[i].ty
                    &&& ret == context.type_attr(op, "ret_type"@)->0
                    &&& supplied > 0 ==> further
                    &&& context.is_nodes(context.func_body(op)) ==> context.types_of(
                        context.filtered(context.region_results(context.func_body(op)), false),
                    ) == if context.types[ret.0 as int] == TypeView::Unit {
                        Seq::empty()
                    } else {
                        seq![ret]
                    }
                },
                _ => false,
            }
        }),
        aligned(context.attr(op, "argument_alignments"@), context.func_params(op).len()),
        stacked(context.attr(op, "stack_arguments"@), context.func_params(op).len()),
        context.flag_attr(op, "result_address"@) ==> context.func_params(op).len() > 0
            && context.types[context.func_params(op)[0].ty.0 as int] is Ptr,
        unaliased(
            context,
            context.attr(op, "noalias"@),
            port_types_of(context.func_params(op)).take(context.public_count(op) as int),
        ),
{
    let ports = context.func_params(op);
    let value = context.ir.op(op)->0.results[0];
    no_alignment_fails(context.attr(op, "argument_alignments"@), ports.len(), "function"@);
    no_stack_argument_fails(context.attr(op, "stack_arguments"@), ports.len(), "function"@);
    let public = port_types_of(ports.take(context.public_count(op) as int));
    no_alias_fails(context, context.attr(op, "noalias"@), public);
    assert(public =~= port_types_of(ports).take(context.public_count(op) as int));
    let params = context.expected_params(op);
    let ret = context.type_attr(op, "ret_type"@)->0;
    assert(context.implicit_failure(op) is None);
    assert(context.signature_of(value) == Some((params, ret)));
    assert(context.implicit_count(op) <= ports.len());
    if context.variadic(params) {
        assert(params.drop_last() =~= public);
    }
    assert forall|i: int| 0 <= i < public.len() implies #[trigger] params[i] == ports[i].ty by {
        assert(public[i] == ports[i].ty);
    }
}

/// A counted loop that is accepted counts through one type: its bounds and its
/// step have the type of what it counts from. One over blocks carries as many
/// values past its counter as it has inits, each port of its init's type, and has
/// a result for each port; its body ends in a `scf.yield` of a value for each of
/// them, of the port's type.
pub proof fn accepted_counts_have_one_type(context: ContextView, op: OpId, index: Option<u32>)
    requires
        context.ir.op(op)->0.operands.len() >= 3,
    ensures
        context.check_failure(op, Check::For, index) is None ==> {
            let from = context.for_inits(op)[0];
            &&& context.type_of(context.for_operand(op, 2)) == context.type_of(from)
            &&& context.type_of(context.for_operand(op, 3)) == context.type_of(from)
        },
        context.check_failure(op, Check::OrderedFor, index) is None ==> {
            let values = context.value_operands(op);
            let last = values.len() - 1;
            let operands = context.ir.op(op)->0.operands;
            let body = context.ir.op(op)->0.regions[0];
            let ports = context.region_ports(body);
            &&& context.type_of(values[last - 1]) == context.type_of(values[0])
            &&& context.type_of(values[last]) == context.type_of(values[0])
            &&& ports.len() == operands.len() - 2
            &&& context.value_results(op).len() == ports.len()
            &&& forall|i: int|
                0 <= i < operands.len() - 3 ==> (#[trigger] ports[i + 1]).ty == context.type_of(
                    operands[i + 1],
                )
            &&& yields_to(context, body)
        },
{
    if context.check_failure(op, Check::OrderedFor, index) is None {
        let operands = context.ir.op(op)->0.operands;
        let body = context.ir.op(op)->0.regions[0];
        let ports = context.region_ports(body);
        let inits = context.ordered_inits(op);
        let name = "scf.ordered_for"@;
        let fails = |i: int|
            if ports[i + 1].ty == context.type_of(inits[i]) {
                None
            } else {
                Some(
                    name + " port "@ + crate::text::decimal((i + 1) as nat)
                        + " and its init differ in type"@,
                )
            };
        assert(inits_failure(context, name, ports, inits, 1) is None);
        assert(inits_failure(context, name, ports, inits, 1) == first_failure(
            fails,
            inits.len() as int,
        ));
        no_failure_anywhere(fails, inits.len() as int);
        assert forall|i: int| 0 <= i < operands.len() - 3 implies (#[trigger] ports[i + 1]).ty
            == context.type_of(operands[i + 1]) by {
            assert(fails(i) is None);
            assert(inits[i] == operands[i + 1]);
        }
        let yielded = context.value_operands(context.latch(body)->0);
        let differs = |i: int|
            if ports[i + 1].ty == context.type_of(yielded[i]) {
                None
            } else {
                Some(
                    name + " port "@ + crate::text::decimal((i + 1) as nat)
                        + " and the value its body yields differ in type"@,
                )
            };
        assert(context.yield_failure(name, ports, yielded) == first_failure(
            differs,
            yielded.len() as int,
        ));
        no_failure_anywhere(differs, yielded.len() as int);
        assert forall|i: int| 0 <= i < yielded.len() implies (#[trigger] ports[i + 1]).ty
            == context.type_of(yielded[i]) by {
            assert(differs(i) is None);
        }
    }
}

/// Whether the body of a counted loop over blocks ends in a `scf.yield` of one
/// value for each port past the counter, of the port's type.
pub open spec fn yields_to(context: ContextView, body: RegionId) -> bool {
    let ports = context.region_ports(body);
    match context.latch(body) {
        Some(end) => {
            let yielded = context.value_operands(end);
            &&& context.identity(end) == ("scf"@, "yield"@)
            &&& yielded.len() + 1 == ports.len()
            &&& forall|i: int|
                0 <= i < yielded.len() ==> (#[trigger] ports[i + 1]).ty == context.type_of(
                    yielded[i],
                )
        },
        None => false,
    }
}

} // verus!

//! Register classes, layouts and the expansion of memory intrinsics.
use tir::attributes::AttributeValue;
use tir::backend::classes::{RegClassId, RegClassInfo, RegisterView};
use tir::backend::instructions::PassError;
use tir::context::Context;
use tir::builder::OpBuilder;
use tir::dialects::ptr::intrinsics::{fill_pattern, inline_chunks};
use tir::dialects::ptr::library::{enclosing_module, ensure_lambda};
use tir::dialects::ptr::{MemcpyOp, MemsetOp};
use tir::ids::{BlockId, OpId, ValueId};
use tir::layout::{data_layout_spec, verify_spec, DataLayout, Endianness};
use tir::ty::{FnType, IntegerType, PtrType, StateType, Type};

fn class(
    key: u32,
    name: &'static str,
    registers: &'static [u16],
    group_width: u16,
    bit_offset: u32,
) -> RegClassId {
    RegClassId::new(Box::leak(Box::new(RegClassInfo {
        key,
        name,
        dialect: "test",
        file: "gpr",
        registers,
        group_width,
        view: RegisterView { bit_offset, merge: false },
    })))
}

#[test]
fn a_group_overlaps_what_it_covers() {
    let single = class(1, "GPR", &[0, 1, 2, 3], 1, 0);
    let pair = class(2, "PAIR", &[0, 2], 2, 0);
    assert!(pair.overlaps(2, single, 3));
    assert!(!pair.overlaps(0, single, 2));
    assert!(single.overlaps(1, pair, 0));
    assert_eq!(pair.span(2), ("gpr", 2, 2));
}

#[test]
fn a_subclass_encodes_no_more() {
    let all = class(1, "GPR", &[0, 1, 2, 3], 1, 0);
    let some = class(2, "LOW", &[0, 1], 1, 0);
    let high = class(3, "HIGH", &[0, 1], 1, 8);
    assert!(some.is_subclass_of(all));
    assert!(!all.is_subclass_of(some));
    assert!(!high.is_subclass_of(all));
    assert!(all.contains(3) && !some.contains(3));
}

#[test]
fn a_layout_answers_for_the_types_it_lists() {
    let spec = data_layout_spec(Endianness::Little, 128, &[("p", 64, 64), ("i32", 32, 32)]);
    assert!(verify_spec(&spec).is_ok());
    let layout = DataLayout::from_value(&spec).expect("a dictionary");
    assert_eq!(layout.stack_alignment(), Some(128));
    assert_eq!(layout.class_layout("i32"), Some((32, 32)));
    let mut context = Context::with_default_dialects();
    let ty = context.get_type_id(Type::Integer(IntegerType { width: 32 }));
    assert_eq!(layout.size_in_bits(&context, ty), Some(32));
    let error = verify_spec(&AttributeValue::Bool(true)).expect_err("no dictionary");
    assert_eq!(
        error.message(),
        "Operation verification failed: data_layout must be a dictionary"
    );
}

#[test]
fn a_copy_is_cut_into_the_widest_accesses() {
    let widths = AttributeValue::Array(vec![
        AttributeValue::UInt(4),
        AttributeValue::UInt(2),
    ]);
    let chunks = inline_chunks(None, Some(&widths), Some(11)).expect("known widths");
    let cut: Vec<(u64, u32)> =
        chunks.expect("small").iter().map(|c| (c.offset, c.bytes)).collect();
    assert_eq!(cut, vec![(0, 4), (4, 4), (8, 2), (10, 1)]);
    // Nine single bytes are more accesses than are emitted.
    assert!(inline_chunks(None, None, Some(9)).expect("bytes").is_none());
    assert!(inline_chunks(None, None, None).expect("no constant").is_none());
    let odd = AttributeValue::Array(vec![AttributeValue::UInt(3)]);
    assert!(inline_chunks(None, Some(&odd), Some(1)).is_err());
}

#[test]
fn a_fill_repeats_its_byte() {
    assert_eq!(fill_pattern(1), 1);
    assert_eq!(fill_pattern(4), 0x0101_0101);
    assert_eq!(fill_pattern(8), 0x0101_0101_0101_0101);
}

#[test]
fn a_routine_is_declared_once() {
    let mut context = Context::with_default_dialects();
    let body = context.create_block(vec![]);
    let region = context.create_region();
    context.add_block_to_region(region, body);
    let end = OpBuilder::new("builtin", "module_end").build(&mut context);
    context.append_op(body, end.id);
    let module = OpBuilder::new("builtin", "module").region(region).build(&mut context);
    assert!(context.is_sound());
    assert!(matches!(enclosing_module(&context, end.id), Ok(id) if id == module.id));
    let Err(PassError::InvalidRuleSet(text)) = enclosing_module(&context, module.id) else {
        panic!("no module around a module");
    };
    assert_eq!(text, "intrinsic runtime call requires an enclosing module");

    let ty = context.get_type_id(Type::Integer(IntegerType { width: 64 }));
    let first = ensure_lambda(&mut context, module.id, "memcpy", ty, &vec![ty, ty]).expect("declared");
    let ops = context.get_block(body).op_ids(&context);
    assert_eq!(ops.len(), 2);
    assert_eq!(context.results_of(ops[0]).clone(), vec![first]);
    let again = ensure_lambda(&mut context, module.id, "memcpy", ty, &vec![ty, ty]).expect("found");
    assert_eq!(again, first);
    assert_eq!(context.get_block(body).op_ids(&context).len(), 2);
    let Err(PassError::InvalidRuleSet(text)) =
        ensure_lambda(&mut context, module.id, "memcpy", ty, &vec![ty])
    else {
        panic!("another type");
    };
    assert_eq!(text, "existing memcpy declaration has an incompatible type");
}

/// A module whose body holds one intrinsic of `bytes` bytes, known to be that many
/// where `known`, with a memory state threaded through it to a `state.use`.
fn intrinsic(context: &mut Context, name: &'static str, bytes: i64, known: bool) -> (BlockId, OpId) {
    let pointer = context.get_type_id(Type::Ptr(PtrType { pointee: None }));
    let size_ty = context.get_type_id(Type::Integer(IntegerType { width: 64 }));
    let byte_ty = context.get_type_id(Type::Integer(IntegerType { width: 8 }));
    let state_ty = context.get_type_id(Type::State(StateType));
    let second = if name == "memset" { byte_ty } else { pointer };
    let args: Vec<_> = [pointer, second, size_ty, state_ty]
        .into_iter()
        .map(|ty| context.create_value(ty, None))
        .collect();
    let ids: Vec<ValueId> = args.iter().map(|value| value.id).collect();
    let body = context.create_block(args);
    let region = context.create_region();
    context.add_block_to_region(region, body);
    let mut size = ids[2];
    if known {
        let constant = OpBuilder::new("builtin", "constant")
            .attr("value", AttributeValue::Int(bytes))
            .result_type(size_ty)
            .build(context);
        context.append_op(body, constant.id);
        size = context.results_of(constant.id)[0];
    }
    let mut builder = OpBuilder::new("ptr", name)
        .operand(ids[0])
        .operand(ids[1])
        .operand(size)
        .dep_operands(vec![ids[3]]);
    builder.dep_results = 1;
    let op = builder.build(context);
    context.append_op(body, op.id);
    let left = context.results_of(op.id)[0];
    let reader = OpBuilder::new("builtin", "module_end").dep_operands(vec![left]).build(context);
    context.append_op(body, reader.id);
    OpBuilder::new("builtin", "module").region(region).build(context);
    assert!(context.is_sound());
    (body, op.id)
}

fn names(context: &Context, block: BlockId) -> Vec<&'static str> {
    let ops = context.get_block(block).op_ids(context);
    ops.into_iter().map(|op| context.op_identity(op).1).collect()
}

/// The state the reader at the end of `block` observes is the one the operation
/// before it leaves.
fn state_is_threaded(context: &Context, block: BlockId) {
    let ops = context.get_block(block).op_ids(context);
    let last = ops[ops.len() - 1];
    let before = ops[ops.len() - 2];
    let observed = context.operands_of(last)[0];
    assert_eq!(context.results_of(before).last(), Some(&observed));
}

#[test]
fn a_small_copy_becomes_loads_and_stores() {
    let mut context = Context::with_default_dialects();
    let (body, op) = intrinsic(&mut context, "memcpy", 3, true);
    let widths = AttributeValue::Array(vec![AttributeValue::Int(2)]);
    let copy = MemcpyOp(context.get_op(op));
    copy.expand(&mut context, None, Some(&widths)).expect("expanded");
    assert!(!context.has_operation(op));
    assert_eq!(
        names(&context, body),
        [
            "constant", "load", "store", "constant", "ptradd", "constant", "ptradd", "load",
            "store", "module_end",
        ]
    );
    let ops = context.get_block(body).op_ids(&context);
    let read = context.get_value(context.results_of(ops[1])[0]).ty;
    assert_eq!(context.type_to_string(read), "!i16");
    let observed = context.operands_of(ops[2])[2];
    assert_eq!(context.results_of(ops[1])[1], observed);
    state_is_threaded(&context, body);
}

#[test]
fn a_small_fill_repeats_its_byte() {
    let mut context = Context::with_default_dialects();
    let (body, op) = intrinsic(&mut context, "memset", 3, true);
    let widths = AttributeValue::Array(vec![AttributeValue::Int(2)]);
    let fill = MemsetOp(context.get_op(op));
    fill.expand(&mut context, None, Some(&widths)).expect("expanded");
    assert!(!context.has_operation(op));
    assert_eq!(
        names(&context, body),
        [
            "constant", "extui", "constant", "muli", "store", "constant", "ptradd", "store",
            "module_end",
        ]
    );
    let ops = context.get_block(body).op_ids(&context);
    let pattern = context.get_op(ops[2]).attr(&context, "value");
    assert!(matches!(pattern, Some(AttributeValue::Int(0x0101))));
    state_is_threaded(&context, body);
}

#[test]
fn a_copy_of_any_size_becomes_a_call() {
    let mut context = Context::with_default_dialects();
    let (body, op) = intrinsic(&mut context, "memcpy", 0, false);
    let copy = MemcpyOp(context.get_op(op));
    copy.expand(&mut context, None, None).expect("expanded");
    assert!(!context.has_operation(op));
    assert_eq!(names(&context, body), ["declare", "call", "module_end"]);
    state_is_threaded(&context, body);
    let ops = context.get_block(body).op_ids(&context);
    let lambda = context.results_of(ops[0])[0];
    assert_eq!(context.operands_of(ops[1])[0], lambda);
    let pointer = context.get_type_id(Type::Ptr(PtrType { pointee: None }));
    let size = context.get_type_id(Type::Integer(IntegerType { width: 64 }));
    let copying = FnType::new(&mut context, &vec![pointer, pointer, size], pointer);
    assert_eq!(context.get_value(lambda).ty, copying);
}

#[test]
fn a_fill_of_any_size_widens_its_byte() {
    let mut context = Context::with_default_dialects();
    let (body, op) = intrinsic(&mut context, "memset", 65, true);
    let fill = MemsetOp(context.get_op(op));
    fill.expand(&mut context, None, None).expect("expanded");
    assert_eq!(names(&context, body), ["declare", "constant", "extui", "call", "module_end"]);
    let ops = context.get_block(body).op_ids(&context);
    assert_eq!(context.operands_of(ops[3])[2], context.results_of(ops[2])[0]);
    state_is_threaded(&context, body);
}

#[test]
fn what_a_target_says_of_memory_is_checked() {
    let mut context = Context::with_default_dialects();
    let (body, op) = intrinsic(&mut context, "memcpy", 4, true);
    let copy = MemcpyOp(context.get_op(op));
    let bad = AttributeValue::Int(-1);
    let Err(PassError::InvalidRuleSet(text)) = copy.expand(&mut context, Some(&bad), None) else {
        panic!("refused");
    };
    assert_eq!(text, "memory_inline_bytes must be an unsigned byte count");
    assert_eq!(names(&context, body), ["constant", "memcpy", "module_end"]);
}

//! Calls and the functions that make them.
use tir::attributes::AttributeValue;
use tir::context::Context;
use tir::dialects::builtin::call::{CallOpBuilder, IndirectCallOpBuilder};
use tir::dialects::builtin::func_op::{FuncOpBuilder, ReturnOpBuilder};
use tir::ids::TypeId;
use tir::ir_formatter::IRFormatter;
use tir::ty::{IntegerType, Type};

fn integer(context: &mut Context, width: u32) -> TypeId {
    context.get_type_id(Type::Integer(IntegerType { width }))
}

#[test]
fn call_construction() {
    let mut context = Context::with_default_dialects();
    let i32_ty = integer(&mut context, 32);
    let a = context.create_value(i32_ty, None);
    let b = context.create_value(i32_ty, None);
    let (a_id, b_id) = (a.id, b.id);
    let _block = context.create_block(vec![a, b]);

    let call = CallOpBuilder::new()
        .args(vec![a_id, b_id])
        .attr("callee", AttributeValue::Str("foo".into()))
        .result_type(i32_ty)
        .build(&mut context);
    assert_eq!(call.callee(&context), "foo");
    assert_eq!(call.args(&context), vec![a_id, b_id]);
    assert_eq!(context.get_value(call.result(&context)).ty, i32_ty);
}

#[test]
fn indirect_call_operand_split() {
    let mut context = Context::with_default_dialects();
    let i64_ty = integer(&mut context, 64);
    let i32_ty = integer(&mut context, 32);
    let callee = context.create_value(i64_ty, None);
    let arg = context.create_value(i32_ty, None);
    let (callee_id, arg_id) = (callee.id, arg.id);
    let _block = context.create_block(vec![callee, arg]);

    let call = IndirectCallOpBuilder::new()
        .callee(callee_id)
        .args(vec![arg_id])
        .result_type(i32_ty)
        .build(&mut context);
    assert_eq!(call.callee(&context), callee_id);
    assert_eq!(call.args(&context), vec![arg_id]);
}

#[test]
fn call_args_are_used() {
    let mut context = Context::with_default_dialects();
    let i32_ty = integer(&mut context, 32);
    let a = context.create_value(i32_ty, None);
    let a_id = a.id;
    let region = context.create_region();
    let block = context.create_block(vec![a]);
    context.add_block_to_region(region, block);

    let _func = FuncOpBuilder::new()
        .sym_name("caller")
        .ret_type(i32_ty)
        .body(region)
        .build(&mut context);
    let call = CallOpBuilder::new()
        .args(vec![a_id])
        .attr("callee", AttributeValue::Str("foo".into()))
        .result_type(i32_ty)
        .build(&mut context);
    let result = call.result(&context);
    context.append_op(block, call.0.id);
    let ret = ReturnOpBuilder::new().value(result).build(&mut context);
    context.append_op(block, ret.0.id);

    assert!(context.is_used(a_id));
    assert!(context.is_used(result));
    assert!(context.verify_use_lists().is_ok());
}

#[test]
fn func_construction() {
    let mut context = Context::with_default_dialects();

    // Create function parameters
    let i32_ty = integer(&mut context, 32);
    let param0 = context.create_value(i32_ty, None);
    let param1 = context.create_value(i32_ty, None);
    let param0_id = param0.id;

    // Create the body region with block arguments
    let region = context.create_region();
    let block = context.create_block(vec![param0, param1]);
    context.add_block_to_region(region, block);

    // Build function op
    let func = FuncOpBuilder::new()
        .sym_name("add")
        .ret_type(i32_ty)
        .body(region)
        .build(&mut context);

    // Insert return op into body
    let ret = ReturnOpBuilder::new().value(param0_id).build(&mut context);
    context.append_op(block, ret.0.id);

    assert_eq!(context.regions_of(func.0.id).len(), 1);
    assert_eq!(context.get_block(block).arguments(&context).len(), 2);
    assert_eq!(context.get_block(block).len(&context), 1);
}

#[test]
fn a_function_prints_its_header_before_its_body() {
    let mut context = Context::with_default_dialects();
    let i32_ty = integer(&mut context, 32);
    let a = context.create_value(i32_ty, None);
    let a_id = a.id;
    let region = context.create_region();
    let block = context.create_block(vec![a]);
    context.add_block_to_region(region, block);
    let func = FuncOpBuilder::new()
        .sym_name("id")
        .ret_type(i32_ty)
        .body(region)
        .build(&mut context);
    let mut fmt = IRFormatter::new();
    func.custom_print(&context, &mut fmt, " {\n}\n");
    assert_eq!(
        fmt.text(),
        format!("func @id(%{}: !i32) -> !i32 {{\n}}\n", a_id.number())
    );
}

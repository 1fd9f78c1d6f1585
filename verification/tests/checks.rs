//! What makes an operation valid: its declaration, its regions, its own check.
use tir::attributes::{AttributeValue, Predicate};
use tir::builder::OpBuilder;
use tir::context::{Context, OpHandle};
use tir::dialects::builtin::func_op::FuncOpBuilder;
use tir::dialects::checks::{verify_op, verify_region};
use tir::dialects::definitions::definition_of;
use tir::ids::{TypeId, ValueId};
use tir::op_tree::verify_op_tree;
use tir::ty::{FnType, IntegerType, PtrType, Type, UnitType};

fn integer(context: &mut Context, width: u32) -> TypeId {
    context.get_type_id(Type::Integer(IntegerType { width }))
}

/// A value that enters as the argument of a block.
fn value(context: &mut Context, ty: TypeId) -> ValueId {
    let value = context.create_value(ty, None);
    let id = value.id;
    context.create_block(vec![value]);
    id
}

fn complaint(context: &Context, op: OpHandle) -> String {
    assert!(context.is_sound());
    let error = verify_op(context, &op, None, None).expect_err("wrong");
    let text = error.message();
    text.strip_prefix("Operation verification failed: ").expect("a verification error").to_string()
}

#[test]
fn every_block_ends_with_a_terminator() {
    let mut context = Context::with_default_dialects();
    let region = context.create_region();
    let unit = context.get_type_id(Type::Unit(UnitType));
    let func = FuncOpBuilder::new().sym_name("f").ret_type(unit).body(region).build(&mut context);
    assert!(context.is_sound());
    assert_eq!(
        func.verify(&context).unwrap_err().message(),
        "Operation verification failed: a region must have at least one basic block"
    );
    let entry = context.create_block(vec![]);
    context.add_block_to_region(region, entry);
    assert_eq!(
        complaint(&context, func.0),
        "every basic block must end with a terminator"
    );
    let end = OpBuilder::new("builtin", "return").build(&mut context);
    context.append_op(entry, end.id);
    assert!(context.is_sound());
    assert!(verify_region(&context, region).is_ok());
    assert!(func.verify(&context).is_ok());
}

#[test]
fn operands_come_before_attributes() {
    let mut context = Context::with_default_dialects();
    let i32_ty = integer(&mut context, 32);
    let i1_ty = integer(&mut context, 1);
    let a = value(&mut context, i32_ty);
    let one = OpBuilder::new("builtin", "cmpi").operand(a).result_type(i1_ty).build(&mut context);
    assert!(complaint(&context, one).starts_with("cmpi"));
    let bare = OpBuilder::new("builtin", "cmpi")
        .operand(a)
        .operand(a)
        .result_type(i1_ty)
        .build(&mut context);
    assert_eq!(complaint(&context, bare), "cmpi missing required attribute 'predicate'");
    let good = OpBuilder::new("builtin", "cmpi")
        .operand(a)
        .operand(a)
        .attr("predicate", AttributeValue::Predicate(Predicate::Slt))
        .result_type(i1_ty)
        .build(&mut context);
    assert!(context.is_sound());
    assert!(verify_op(&context, &good, None, None).is_ok());
    assert_eq!(
        verify_op(&context, &good, None, Some("no good")).unwrap_err().message(),
        "Operation verification failed: no good"
    );
}

#[test]
fn one_type_is_one_type() {
    let mut context = Context::with_default_dialects();
    let i32_ty = integer(&mut context, 32);
    let i8_ty = integer(&mut context, 8);
    let a = value(&mut context, i32_ty);
    let b = value(&mut context, i8_ty);
    let sum = OpBuilder::new("builtin", "addi")
        .operand(a)
        .operand(b)
        .result_type(i32_ty)
        .build(&mut context);
    assert_eq!(complaint(&context, sum), "operand and result types must be the same");
}

#[test]
fn a_kind_has_the_last_word() {
    let mut context = Context::with_default_dialects();
    let i64_ty = integer(&mut context, 64);
    let i32_ty = integer(&mut context, 32);
    let pointer = context.get_type_id(Type::Ptr(PtrType { pointee: None }));
    let f_ty = FnType::new(&mut context, &vec![], i64_ty);
    let p = value(&mut context, pointer);
    let load = OpBuilder::new("ptr", "load").operand(p).result_type(f_ty).build(&mut context);
    assert!(verify_op(&context, &load, None, None).is_err());
    let narrow = value(&mut context, i32_ty);
    let copy = OpBuilder::new("ptr", "memcpy")
        .operand(p)
        .operand(p)
        .operand(narrow)
        .build(&mut context);
    assert!(context.is_sound());
    assert!(verify_op(&context, &copy, None, None).is_err());
    let wide = value(&mut context, i64_ty);
    let copy = OpBuilder::new("ptr", "memcpy")
        .operand(p)
        .operand(p)
        .operand(wide)
        .build(&mut context);
    assert!(verify_op(&context, &copy, None, None).is_ok());
    assert!(verify_op_tree(&context, copy.id, &vec![], None, &vec![]).is_ok());
    assert!(verify_op_tree(&context, load.id, &vec![], None, &vec![]).is_err());
}

#[test]
fn declarations_say_what_they_take() {
    let def = definition_of("builtin", "cond_br").expect("declared");
    assert_eq!(def.schema.operands.len(), 3);
    assert!(!def.schema.operands[0].variadic && def.schema.operands[1].variadic);
    assert_eq!(def.schema.attributes.len(), 2);
    assert!(definition_of("builtin", "no_such_op").is_none());
    assert!(definition_of("test", "op").is_none());
    assert!(definition_of("fp", "neg").expect("declared").same_type);
}

//! Branches between blocks: what they hold, how they print and how they read.
use tir::context::Context;
use tir::dialects::builtin::control::{
    BranchOp, BranchOpBuilder, CondBranchOp, CondBranchOpBuilder,
};
use tir::dialects::builtin::func_op::FuncOpBuilder;
use tir::dialects::builtin::syntax::{parse_successor, CondBranchSyntax};
use tir::ids::{BlockId, TypeId, ValueId};
use tir::interfaces::{Interface, Terminator};
use tir::ir_formatter::IRFormatter;
use tir::parse::text::Parser;
use tir::ty::{IntegerType, Type, UnitType};

fn integer(context: &mut Context, width: u32) -> TypeId {
    context.get_type_id(Type::Integer(IntegerType { width }))
}

fn br(context: &mut Context, args: Vec<ValueId>, dest: BlockId) -> BranchOp {
    BranchOpBuilder::new().dest_args(args).dest(dest).build(context)
}

fn cond_br(
    context: &mut Context,
    condition: ValueId,
    true_args: Vec<ValueId>,
    false_args: Vec<ValueId>,
    true_dest: BlockId,
    false_dest: BlockId,
) -> CondBranchOp {
    CondBranchOpBuilder::new()
        .operands(condition, true_args, false_args)
        .dests(true_dest, false_dest)
        .build(context)
}

/// Reads a printed `br` back into the context it was printed from.
fn read_br(context: &mut Context, text: &str) -> BranchOp {
    let mut parser = Parser::new(text);
    assert!(parser.parse_token("br"));
    let successor = parse_successor(&mut parser).expect("parse br");
    let dest = BlockId::from_number(successor.index);
    successor.branch(dest).build(context)
}

/// Reads a printed `cond_br` back into the context it was printed from.
fn read_cond_br(context: &mut Context, text: &str) -> CondBranchOp {
    let mut parser = Parser::new(text);
    assert!(parser.parse_token("cond_br"));
    let read = CondBranchSyntax::parse(&mut parser).expect("parse cond_br");
    let (t, f) = (
        BlockId::from_number(read.true_dest.index),
        BlockId::from_number(read.false_dest.index),
    );
    cond_br(context, read.condition, read.true_dest.args, read.false_dest.args, t, f)
}

#[test]
fn br_no_args_roundtrip() {
    let mut context = Context::with_default_dialects();
    let dest = context.create_block(vec![]);

    let op = br(&mut context, vec![], dest);
    assert_eq!(op.dest(&context), dest);
    assert!(op.dest_args(&context).is_empty());

    let mut fmt = IRFormatter::new();
    op.custom_print(&context, &mut fmt);
    let buf = fmt.text().to_string();
    assert_eq!(buf.trim_end(), format!("br ^bb{}", dest.number()));

    let parsed = read_br(&mut context, &buf);
    assert_eq!(parsed.dest(&context), dest);
}

#[test]
fn br_with_args_roundtrip() {
    let mut context = Context::with_default_dialects();
    let i32_ty = integer(&mut context, 32);
    let a = context.create_value(i32_ty, None);
    let b = context.create_value(i32_ty, None);
    let (a_id, b_id) = (a.id, b.id);
    let _block = context.create_block(vec![a, b]);
    let dest = context.create_block(vec![]);

    let op = br(&mut context, vec![a_id, b_id], dest);
    assert_eq!(op.dest_args(&context), vec![a_id, b_id]);

    let mut fmt = IRFormatter::new();
    op.custom_print(&context, &mut fmt);
    let buf = fmt.text().to_string();
    assert_eq!(
        buf.trim_end(),
        format!(
            "br ^bb{}(%{}, %{} : !i32, !i32)",
            dest.number(),
            a_id.number(),
            b_id.number()
        )
    );

    let parsed = read_br(&mut context, &buf);
    assert_eq!(parsed.dest_args(&context), vec![a_id, b_id]);
    assert!(context.is_sound());
    assert!(parsed.verify(&context).is_ok());
}

#[test]
fn cond_br_with_args_roundtrip() {
    let mut context = Context::with_default_dialects();
    let i1_ty = integer(&mut context, 1);
    let i32_ty = integer(&mut context, 32);
    let cond = context.create_value(i1_ty, None);
    let a = context.create_value(i32_ty, None);
    let b = context.create_value(i32_ty, None);
    let (cond_id, a_id, b_id) = (cond.id, a.id, b.id);
    let _block = context.create_block(vec![cond, a, b]);
    let t = context.create_block(vec![]);
    let f = context.create_block(vec![]);

    let op = cond_br(&mut context, cond_id, vec![a_id], vec![b_id], t, f);
    assert_eq!(op.condition(&context), cond_id);
    assert_eq!(op.true_args(&context), vec![a_id]);
    assert_eq!(op.false_args(&context), vec![b_id]);
    assert_eq!(op.successors(&context), vec![t, f]);

    let mut fmt = IRFormatter::new();
    op.custom_print(&context, &mut fmt);
    let buf = fmt.text().to_string();
    assert_eq!(
        buf.trim_end(),
        format!(
            "cond_br %{}, ^bb{}(%{} : !i32), ^bb{}(%{} : !i32)",
            cond_id.number(),
            t.number(),
            a_id.number(),
            f.number(),
            b_id.number()
        )
    );

    let parsed = read_cond_br(&mut context, &buf);
    assert_eq!(parsed.true_dest(&context), t);
    assert_eq!(parsed.false_dest(&context), f);
    assert_eq!(parsed.true_args(&context), vec![a_id]);
    assert_eq!(parsed.false_args(&context), vec![b_id]);
    assert!(context.is_sound());
    assert!(parsed.verify(&context).is_ok());
}

#[test]
fn cond_br_asymmetric_args() {
    let mut context = Context::with_default_dialects();
    let i1_ty = integer(&mut context, 1);
    let i32_ty = integer(&mut context, 32);
    let cond = context.create_value(i1_ty, None);
    let a = context.create_value(i32_ty, None);
    let b = context.create_value(i32_ty, None);
    let c = context.create_value(i32_ty, None);
    let (cond_id, a_id, b_id, c_id) = (cond.id, a.id, b.id, c.id);
    let _block = context.create_block(vec![cond, a, b, c]);
    let t = context.create_block(vec![]);
    let f = context.create_block(vec![]);

    // Two args to true, one to false: segment split must stay correct.
    let op = cond_br(&mut context, cond_id, vec![a_id, b_id], vec![c_id], t, f);
    assert_eq!(op.true_args(&context), vec![a_id, b_id]);
    assert_eq!(op.false_args(&context), vec![c_id]);

    let mut fmt = IRFormatter::new();
    op.custom_print(&context, &mut fmt);
    let buf = fmt.text().to_string();
    let parsed = read_cond_br(&mut context, &buf);
    assert_eq!(parsed.true_args(&context), vec![a_id, b_id]);
    assert_eq!(parsed.false_args(&context), vec![c_id]);
}

#[test]
fn branches_are_terminators() {
    let mut context = Context::with_default_dialects();
    let dest = context.create_block(vec![]);
    let op = br(&mut context, vec![], dest);
    let instance = context.get_op(op.0.id);
    assert!(instance.as_interface(&context, Interface::Terminator).is_some());
}

#[test]
fn cond_br_requires_i1_condition() {
    let mut context = Context::with_default_dialects();
    let ty = integer(&mut context, 32);
    let cond = context.create_value(ty, None);
    let cond_id = cond.id;
    let _block = context.create_block(vec![cond]);
    let t = context.create_block(vec![]);
    let f = context.create_block(vec![]);

    let op = cond_br(&mut context, cond_id, vec![], vec![], t, f);
    assert!(context.is_sound());
    let error = op.verify(&context).expect_err("condition must be i1");
    assert!(error
        .message()
        .contains("expected constraint crate::Integer<1>"));
}

#[test]
fn branch_terminates_function_block() {
    let mut context = Context::with_default_dialects();
    let region = context.create_region();
    let entry = context.create_block(vec![]);
    context.add_block_to_region(region, entry);
    let target = context.create_block(vec![]);

    let unit = context.get_type_id(Type::Unit(UnitType));
    let func = FuncOpBuilder::new()
        .sym_name("jump")
        .ret_type(unit)
        .body(region)
        .build(&mut context);

    let jump = br(&mut context, vec![], target);
    context.append_op(entry, jump.0.id);

    assert!(context.is_sound());
    assert!(func.verify(&context).is_ok());
}

#[test]
fn a_branch_without_a_block_is_reported() {
    let mut parser = Parser::new("br %0");
    assert!(parser.parse_token("br"));
    let (span, error) = match parse_successor(&mut parser) {
        Ok(_) => panic!("no successor"),
        Err(e) => e,
    };
    assert_eq!(span.start, 2);
    assert!(error.message().contains("^bb"));
}

#[test]
fn a_branch_that_lacks_its_block_is_not_what_it_is_declared_as() {
    let mut context = Context::with_default_dialects();
    let op = BranchOpBuilder::new().dest_args(vec![]).build(&mut context);
    assert!(context.is_sound());
    let error = op.verify(&context).expect_err("no block");
    assert!(error.message().contains("br missing required attribute 'dest'"));
}

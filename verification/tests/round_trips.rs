//! What is printed is read back.
use tir::attributes::AttributeValue;
use tir::builder::OpBuilder;
use tir::context::Context;
use tir::dialects::builtin::call::{CallOpBuilder, IndirectCallOpBuilder};
use tir::dialects::builtin::func_op::{FuncOp, FuncOpBuilder, ReturnOpBuilder};
use tir::dialects::builtin::global::{global_bytes, global_external, global_zero};
use tir::dialects::builtin::syntax::{CallSyntax, FuncSyntax, GlobalSyntax, IndirectCallSyntax};
use tir::dialects::cfg::syntax::{parse_successor, CondBranchSyntax};
use tir::dialects::cfg::{BranchOp, CondBranchOp};
use tir::dialects::fp::round::RoundOp;
use tir::dialects::fp::round_syntax::{parse_round_head, parse_round_tail};
use tir::dialects::func::call::CallOpBuilder as ValueCallBuilder;
use tir::dialects::func::declare::declare_op;
use tir::dialects::func::syntax::{CallSyntax as ValueCallSyntax, DeclareSyntax};
use tir::ids::{BlockId, RegionId, TypeId, ValueId};
use tir::ir_formatter::IRFormatter;
use tir::parse::text::Parser;
use tir::ty::{FnType, IntegerType, PtrType, StateType, Type, UnitType};

fn integer(context: &mut Context, width: u32) -> TypeId {
    context.get_type_id(Type::Integer(IntegerType { width }))
}

fn block(context: &mut Context, types: &[TypeId]) -> (BlockId, Vec<ValueId>) {
    let args: Vec<_> = types.iter().map(|ty| context.create_value(*ty, None)).collect();
    let ids = args.iter().map(|value| value.id).collect();
    (context.create_block(args), ids)
}

fn region(context: &mut Context, block: BlockId) -> RegionId {
    let region = context.create_region();
    context.add_block_to_region(region, block);
    region
}

#[test]
fn a_call_is_read_back() {
    let mut context = Context::with_default_dialects();
    let i32_ty = integer(&mut context, 32);
    let i8_ty = integer(&mut context, 8);
    let (_, args) = block(&mut context, &[i32_ty, i8_ty]);
    let call = CallOpBuilder::new()
        .args(args.clone())
        .attr("callee", AttributeValue::Str("foo".into()))
        .result_type(i32_ty)
        .build(&mut context);
    let mut fmt = IRFormatter::new();
    call.custom_print(&context, &mut fmt);
    let text = fmt.text().to_string();
    let result = call.result(&context);
    assert_eq!(
        text,
        format!(
            "%{} = call @foo(%{}, %{} : !i32, !i8) -> !i32\n",
            result.number(),
            args[0].number(),
            args[1].number()
        )
    );
    let mut parser = Parser::new(text.split_once("call").expect("a call").1);
    let read = CallSyntax::parse(&mut parser).map_err(|(_, e)| e.message()).expect("a call");
    assert_eq!(read.callee, "foo");
    assert_eq!(read.args, args);
    assert_eq!(read.arg_types.len(), 2);
    assert!(read.ret.is_some());
    let builder = read.finish(&mut context);
    assert_eq!(builder.operands, args);
    assert_eq!(builder.result_types, vec![i32_ty]);
}

#[test]
fn an_indirect_call_is_read_back() {
    let mut context = Context::with_default_dialects();
    let i32_ty = integer(&mut context, 32);
    let (_, values) = block(&mut context, &[i32_ty, i32_ty]);
    let call = IndirectCallOpBuilder::new()
        .callee(values[0])
        .args(vec![values[1]])
        .result_type(i32_ty)
        .build(&mut context);
    let mut fmt = IRFormatter::new();
    call.custom_print(&context, &mut fmt);
    let text = fmt.text().to_string();
    let mut parser = Parser::new(text.split_once("call").expect("a call").1);
    let read =
        IndirectCallSyntax::parse(&mut parser).map_err(|(_, e)| e.message()).expect("a call");
    assert_eq!(read.callee, values[0]);
    assert_eq!(read.args, vec![values[1]]);
}

#[test]
fn a_function_header_is_read_back() {
    let mut context = Context::with_default_dialects();
    let i32_ty = integer(&mut context, 32);
    let i8_ty = integer(&mut context, 8);
    let (entry, params) = block(&mut context, &[i32_ty, i8_ty]);
    let body = region(&mut context, entry);
    let func = FuncOpBuilder::new()
        .sym_name("f")
        .ret_type(i32_ty)
        .body(body)
        .build(&mut context);
    let mut fmt = IRFormatter::new();
    func.custom_print(&context, &mut fmt, " {\n}\n");
    let text = fmt.text().to_string();
    assert_eq!(
        text,
        format!(
            "func @f(%{}: !i32, %{}: !i8) -> !i32 {{\n}}\n",
            params[0].number(),
            params[1].number()
        )
    );
    let mut parser = Parser::new(text.strip_prefix("func").expect("a function"));
    let read = FuncSyntax::parse(&mut parser).map_err(|(_, e)| e.message()).expect("a function");
    assert_eq!(read.name, "f");
    let names: Vec<String> = read.params.iter().map(|p| p.name.clone()).collect();
    assert_eq!(names, vec![params[0].number().to_string(), params[1].number().to_string()]);
    assert!(read.ret.is_some());
}

#[test]
fn a_declaration_is_read_back() {
    let mut context = Context::with_default_dialects();
    let i32_ty = integer(&mut context, 32);
    let declared = declare_op(&mut context, "g", i32_ty, &vec![i32_ty, i32_ty]);
    let mut fmt = IRFormatter::new();
    declared.custom_print(&context, &mut fmt);
    let text = fmt.text().to_string();
    let mut parser = Parser::new(text.split_once("func.declare").expect("a declaration").1);
    let read =
        DeclareSyntax::parse(&mut parser).map_err(|(_, e)| e.message()).expect("a declaration");
    assert_eq!(read.name, "g");
    assert_eq!(read.params.len(), 2);
    assert!(!read.private);
}

#[test]
fn a_definition_header_is_read_back() {
    let text = " private @h(%0: !i32, ...) -> !i32 implicit_arguments 2 noalias [0, 3] {\n}";
    let mut parser = Parser::new(text);
    let read = tir::dialects::func::syntax::FuncSyntax::parse(&mut parser)
        .map_err(|(_, e)| e.message())
        .expect("a definition");
    assert!(read.private && read.params.variadic);
    assert_eq!(read.name, "h");
    assert_eq!(read.params.params.len(), 1);
    assert_eq!(read.clauses.implicit_arguments, Some(2));
    assert!(!read.clauses.result_address);
    assert!(read.clauses.entry_sp.is_none() && read.clauses.stack_arguments.is_none());
    let Some(AttributeValue::Array(items)) = read.clauses.noalias else { panic!("no list") };
    assert!(matches!(items[..], [AttributeValue::Int(0), AttributeValue::Int(3)]));
}

#[test]
fn a_successor_is_read_back() {
    let mut context = Context::with_default_dialects();
    let i32_ty = integer(&mut context, 32);
    let state = context.get_type_id(Type::State(StateType));
    let (_, values) = block(&mut context, &[i32_ty, state]);
    let (dest, _) = block(&mut context, &[]);
    let op = OpBuilder::new("cfg", "br")
        .operands(values.clone())
        .attr("dest", AttributeValue::Block(dest))
        .build(&mut context);
    let mut fmt = IRFormatter::new();
    BranchOp(op).custom_print(&context, &mut fmt);
    let text = fmt.text().to_string();
    assert_eq!(
        text.trim_end(),
        format!(
            "cfg.br ^bb{}(%{} : !i32, state(%{}))",
            dest.number(),
            values[0].number(),
            values[1].number()
        )
    );
    let mut parser = Parser::new(text.strip_prefix("cfg.br").expect("a branch"));
    let read = parse_successor(&mut parser).map_err(|(_, e)| e.message()).expect("a successor");
    assert_eq!(read.label, format!("bb{}", dest.number()));
    assert_eq!(read.values, vec![values[0].number().to_string()]);
    assert_eq!(read.states, vec![values[1].number().to_string()]);
}

#[test]
fn a_conditional_branch_is_read_back() {
    let mut context = Context::with_default_dialects();
    let i1_ty = integer(&mut context, 1);
    let i32_ty = integer(&mut context, 32);
    let (_, values) = block(&mut context, &[i1_ty, i32_ty]);
    let (yes, _) = block(&mut context, &[i32_ty]);
    let (no, _) = block(&mut context, &[]);
    let op = OpBuilder::new("cfg", "cond_br")
        .operand(values[0])
        .operands(vec![values[1]])
        .operands(vec![])
        .segments()
        .attr("true_dest", AttributeValue::Block(yes))
        .attr("false_dest", AttributeValue::Block(no))
        .build(&mut context);
    let mut fmt = IRFormatter::new();
    CondBranchOp(op).custom_print(&context, &mut fmt);
    let text = fmt.text().to_string();
    assert_eq!(
        text,
        format!(
            "cfg.cond_br %{}, ^bb{}(%{} : !i32), ^bb{}\n",
            values[0].number(),
            yes.number(),
            values[1].number(),
            no.number()
        )
    );
    let mut parser = Parser::new(text.strip_prefix("cfg.cond_br").expect("a branch"));
    let read = CondBranchSyntax::parse(&mut parser).map_err(|(_, e)| e.message()).expect("read");
    assert_eq!(read.condition, values[0].number().to_string());
    assert_eq!(read.true_dest.label, format!("bb{}", yes.number()));
    assert_eq!(read.true_dest.values, vec![values[1].number().to_string()]);
    assert_eq!(read.false_dest.label, format!("bb{}", no.number()));
    assert!(read.false_dest.values.is_empty() && read.false_dest.states.is_empty());
}

#[test]
fn a_call_of_a_value_is_read_back() {
    let mut context = Context::with_default_dialects();
    let i32_ty = integer(&mut context, 32);
    let i8_ty = integer(&mut context, 8);
    let f_ty = FnType::new(&mut context, &vec![i32_ty, i8_ty], i32_ty);
    let (_, values) = block(&mut context, &[f_ty, i32_ty, i8_ty]);
    let call = ValueCallBuilder::new()
        .callee(values[0])
        .args(vec![values[1], values[2]])
        .result_type(i32_ty)
        .result_address()
        .attr("callee", AttributeValue::Str("foo".into()))
        .argument_alignments(&vec![4, 1])
        .build(&mut context);
    let mut fmt = IRFormatter::new();
    call.custom_print(&context, &mut fmt);
    let text = fmt.text().to_string();
    let result = call.result(&context);
    assert_eq!(
        text,
        format!(
            "%{} = func.call %{}(%{}, %{} : !i32, !i8) -> !i32 result_address callee @foo \
             argument_alignments [4, 1]\n",
            result.number(),
            values[0].number(),
            values[1].number(),
            values[2].number()
        )
    );
    let mut parser = Parser::new(text.split_once("func.call").expect("a call").1);
    let read = ValueCallSyntax::parse(&mut parser).map_err(|(_, e)| e.message()).expect("a call");
    assert_eq!(read.callee, values[0].number().to_string());
    assert_eq!(read.args, vec![values[1].number().to_string(), values[2].number().to_string()]);
    assert_eq!(read.arg_types.len(), 2);
    assert!(read.ret.is_some() && read.result_address);
    assert_eq!(read.symbol.as_deref(), Some("foo"));
    let Some(AttributeValue::Array(items)) = read.argument_alignments else { panic!("no list") };
    assert!(matches!(items[..], [AttributeValue::Int(4), AttributeValue::Int(1)]));
    assert!(read.deps.is_empty());
}

/// A function as it prints, its body printed as `body`.
fn printed(context: &Context, func: FuncOp, body: &str) -> String {
    let mut fmt = IRFormatter::new();
    func.custom_print(context, &mut fmt, body);
    fmt.text().to_string()
}

/// Reads a function into a context of its own, its body as the text it is, and prints
/// it again.
fn reread(text: &str) -> String {
    let source = text.strip_prefix("func").expect("a function");
    let mut parser = Parser::new(source);
    let read = FuncSyntax::parse(&mut parser).map_err(|(_, e)| e.message()).expect("a function");
    let mut context = Context::with_default_dialects();
    let types: Vec<_> = read.params.iter().map(|p| p.ty.intern(&mut context)).collect();
    let (entry, _) = block(&mut context, &types);
    let body = region(&mut context, entry);
    let ret = match &read.ret {
        Some(ty) => ty.intern(&mut context),
        None => context.get_type_id(Type::Unit(UnitType)),
    };
    let func = FuncOpBuilder::new().sym_name(&read.name).ret_type(ret).body(body);
    let func = func.build(&mut context);
    let at = source.find('{').expect("a body");
    assert!(at <= read.body.start && read.body.end <= source.chars().count());
    printed(&context, func, &format!(" {}", &source[at..]))
}

#[test]
fn func_roundtrip() {
    let mut context = Context::with_default_dialects();
    let i32_ty = integer(&mut context, 32);
    let (entry, params) = block(&mut context, &[i32_ty, i32_ty]);
    let body = region(&mut context, entry);
    let func = FuncOpBuilder::new().sym_name("add").ret_type(i32_ty).body(body);
    let func = func.build(&mut context);
    let end = ReturnOpBuilder::new().value(params[0]).build(&mut context);
    context.append_op(entry, end.0.id);

    let text = format!(" {{\n  return %{}\n}}\n", params[0].number());
    let buf = printed(&context, func, &text);
    assert!(!buf.is_empty());
    assert_eq!(buf, reread(&buf));
}

#[test]
fn void_func() {
    let mut context = Context::with_default_dialects();
    let unit = context.get_type_id(Type::Unit(UnitType));
    let (entry, _) = block(&mut context, &[]);
    let body = region(&mut context, entry);
    let func = FuncOpBuilder::new().sym_name("nop").ret_type(unit).body(body);
    let func = func.build(&mut context);
    let end = ReturnOpBuilder::new().build(&mut context);
    context.append_op(entry, end.0.id);

    let buf = printed(&context, func, " {\n  return\n}\n");
    assert_eq!(buf, reread(&buf));
}

#[test]
fn an_object_prints_what_it_declares() {
    let mut context = Context::with_default_dialects();
    let pointer = context.get_type_id(Type::Ptr(PtrType { pointee: None }));
    let zero = global_zero("z", 24, 8, pointer).build(&mut context);
    let mut fmt = IRFormatter::new();
    zero.custom_print(&context, &mut fmt, "", "");
    let n = zero.address(&context).number();
    assert_eq!(fmt.text(), format!("%{n} = global @z size 24 align 8\n"));
    let bytes = global_bytes("b", vec![1, 2], 4, pointer).build(&mut context);
    let mut fmt = IRFormatter::new();
    bytes.custom_print(&context, &mut fmt, "[1, 2]", "");
    let n = bytes.address(&context).number();
    assert_eq!(fmt.text(), format!("%{n} = global @b align 4 bytes [1, 2]\n"));
    let text = fmt.text().to_string();
    let mut parser = Parser::new(text.split_once("global").expect("an object").1);
    let read = GlobalSyntax::parse(&mut parser).map_err(|(_, e)| e.message()).expect("an object");
    assert_eq!((read.name.as_str(), read.size, read.align), ("b", None, Some(4)));
    assert!(!read.private && !read.is_external && read.bytes.is_some());
    let outside = global_external("e", pointer).build(&mut context);
    let mut fmt = IRFormatter::new();
    outside.custom_print(&context, &mut fmt, "", "");
    let n = outside.address(&context).number();
    assert_eq!(fmt.text(), format!("%{n} = global external @e\n"));
}

#[test]
fn a_rounded_evaluation_is_read_back_around_its_contract() {
    let mut context = Context::with_default_dialects();
    let i32_ty = integer(&mut context, 32);
    let x = context.create_value(i32_ty, None).id;
    let port = context.create_value(i32_ty, None);
    let reference = context.create_nodes_region(vec![port], vec![], vec![port.id]);
    let round = OpBuilder::new("fp", "round").operand(x).result_type(i32_ty).region(reference);
    let round = RoundOp(round.build(&mut context));
    let mut fmt = IRFormatter::new();
    round.custom_print(&context, &mut fmt, "{}", " {\n}\n");
    let text = fmt.text().to_string();
    let result = context.results_of(round.0.id)[0];
    assert_eq!(
        text,
        format!(
            "%{} = fp.round (%{} = %{}) {{contract = {{}}}} : !i32 {{\n}}\n",
            result.number(),
            port.id.number(),
            x.number()
        )
    );
    let (head, tail) = text.split_once("{}").expect("a contract");
    let head = head.split_once("fp.round").expect("its name").1;
    let mut parser = Parser::new(head);
    let pairs = parse_round_head(&mut parser).map_err(|(_, e)| e.message()).expect("a head");
    assert_eq!(pairs.len(), 1);
    assert_eq!(pairs[0].port, port.id.number().to_string());
    assert_eq!(pairs[0].init, x.number().to_string());
    let mut parser = Parser::new(tail);
    let types = parse_round_tail(&mut parser).map_err(|(_, e)| e.message()).expect("a tail");
    assert_eq!(types.len(), 1);
    assert_eq!(types[0].intern(&mut context), i32_ty);
    let mut parser = Parser::new(" {bound");
    let (_, error) = parse_round_head(&mut parser).err().expect("no contract");
    assert!(error.message().contains("contract"));
}

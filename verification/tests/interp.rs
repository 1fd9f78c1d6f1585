//! Running functions: memory, leaves, and the machine that follows control.
use tir::attributes::AttributeValue;
use tir::builder::OpBuilder;
use tir::context::Context;
use tir::dialects::ptr::AllocaOpBuilder;
use tir::ids::{BlockId, OpId, RegionId, TypeId, ValueId};
use tir::interp::dispatch::eval_leaf;
use tir::interp::leaf::Interp;
use tir::interp::machine::Step;
use tir::interp::memory::{Memory, MEMORY_BASE};
use tir::interp::run::Run;
use tir::interp::semantic::{
    eval_semantic, from_sem_value, symbols, to_sem_value, widen_int_to_type, SemValue,
};
use tir::interp::{FloatValue, IntValue, Value};
use tir::ty::{FnType, IntegerType, PtrType, Type};

fn integer(context: &mut Context, width: u32) -> TypeId {
    context.get_type_id(Type::Integer(IntegerType { width }))
}

fn whole(n: i64) -> Value {
    Value::Int(IntValue::new(32, n as u64))
}

fn number(value: &Value) -> i64 {
    value.to_i64().expect("an integer")
}

/// A block with one argument per entry of `types`, and its arguments.
fn block(context: &mut Context, types: &[TypeId]) -> (BlockId, Vec<ValueId>) {
    let mut args = vec![];
    let mut ids = vec![];
    for ty in types {
        let value = context.create_value(*ty, None);
        ids.push(value.id);
        args.push(value);
    }
    (context.create_block(args), ids)
}

fn region(context: &mut Context, blocks: &[BlockId]) -> RegionId {
    let region = context.create_region();
    for block in blocks {
        context.add_block_to_region(region, *block);
    }
    region
}

/// Builds an op at the end of `block` and hands back its results.
fn emit(context: &mut Context, block: BlockId, builder: OpBuilder) -> Vec<ValueId> {
    let op = builder.build(context);
    context.append_op(block, op.id);
    context.results_of(op.id).clone()
}

fn constant(context: &mut Context, block: BlockId, n: i64, ty: TypeId) -> ValueId {
    let builder = OpBuilder::new("builtin", "constant")
        .attr("value", AttributeValue::Int(n))
        .result_type(ty);
    emit(context, block, builder)[0]
}

fn add(context: &mut Context, block: BlockId, a: ValueId, b: ValueId, ty: TypeId) -> ValueId {
    let builder = OpBuilder::new("builtin", "addi").operand(a).operand(b).result_type(ty);
    emit(context, block, builder)[0]
}

fn ret(context: &mut Context, block: BlockId, values: Vec<ValueId>) {
    emit(context, block, OpBuilder::new("func", "return").operands(values));
}

fn function(context: &mut Context, name: &str, params: &[TypeId], ret: TypeId, body: RegionId) -> OpId {
    let ty = context.get_type_id(Type::Fn(FnType { params: params.to_vec(), ret }));
    OpBuilder::new("func", "func")
        .attr("sym_name", AttributeValue::Str(name.to_string()))
        .attr("ret_type", AttributeValue::Type(ret))
        .region(body)
        .result_type(ty)
        .build(context)
        .id
}

/// What the semantic expression of `op` comes to: the sum of an `addi`, of which
/// the programs here are made.
fn meaning(context: &Context, op: OpId, symbols: &[SemValue]) -> Option<SemValue> {
    if !context.get_op(op).is_name(context, "builtin", "addi") {
        return None;
    }
    let [SemValue::Int(a), SemValue::Int(b)] = symbols else { panic!("two integers") };
    Some(SemValue::Int(IntValue::new(64, a.bits.wrapping_add(b.bits))))
}

fn run(context: &Context, function: OpId, args: Vec<Value>) -> Result<Vec<i64>, String> {
    assert!(context.is_sound());
    let mut run = Run::start(context, function, &args);
    loop {
        run.run(context, 1000);
        let result = match &run.step {
            Step::Ran => continue,
            Step::Leaf(op, operands) => {
                let symbols = symbols(operands, 64).map_err(|e| e.message())?;
                meaning(context, *op, &symbols)
            }
            Step::Done(values) => return Ok(values.iter().map(number).collect()),
            Step::Failed(e) => return Err(e.message()),
            Step::Stuck => return Err("stuck".to_string()),
        };
        run.resume(context, None, result);
    }
}

#[test]
fn a_function_returns_what_it_computes() {
    let mut context = Context::with_default_dialects();
    let i32_ty = integer(&mut context, 32);
    let (entry, params) = block(&mut context, &[i32_ty]);
    let body = region(&mut context, &[entry]);
    let two = constant(&mut context, entry, 2, i32_ty);
    let sum = add(&mut context, entry, params[0], two, i32_ty);
    ret(&mut context, entry, vec![sum]);
    let f = function(&mut context, "plus_two", &[i32_ty], i32_ty, body);
    assert_eq!(run(&context, f, vec![whole(40)]), Ok(vec![42]));
    assert_eq!(run(&context, f, vec![whole(-5)]), Ok(vec![-3]));
}

#[test]
fn a_wrong_number_of_arguments_is_reported() {
    let mut context = Context::with_default_dialects();
    let i32_ty = integer(&mut context, 32);
    let (entry, params) = block(&mut context, &[i32_ty]);
    let body = region(&mut context, &[entry]);
    ret(&mut context, entry, vec![params[0]]);
    let f = function(&mut context, "id", &[i32_ty], i32_ty, body);
    assert_eq!(
        run(&context, f, vec![]),
        Err("@id takes 1 arguments, got 0".to_string())
    );
}

#[test]
fn a_block_without_a_terminator_is_reported() {
    let mut context = Context::with_default_dialects();
    let i32_ty = integer(&mut context, 32);
    let (entry, _) = block(&mut context, &[]);
    let body = region(&mut context, &[entry]);
    constant(&mut context, entry, 1, i32_ty);
    let f = function(&mut context, "open", &[], i32_ty, body);
    assert_eq!(
        run(&context, f, vec![]),
        Err("block fell through without a terminator".to_string())
    );
}

#[test]
fn a_value_nothing_defined_is_reported() {
    let mut context = Context::with_default_dialects();
    let i32_ty = integer(&mut context, 32);
    let loose = context.create_value(i32_ty, None).id;
    let (entry, _) = block(&mut context, &[]);
    let body = region(&mut context, &[entry]);
    ret(&mut context, entry, vec![loose]);
    let f = function(&mut context, "loose", &[], i32_ty, body);
    assert_eq!(
        run(&context, f, vec![]),
        Err(format!("value %{} used before it is defined", loose.number()))
    );
}

#[test]
fn a_counted_loop_carries_its_values() {
    let mut context = Context::with_default_dialects();
    let i32_ty = integer(&mut context, 32);
    // The body adds the counter to the sum and the step to the counter.
    let (inner, args) = block(&mut context, &[i32_ty, i32_ty]);
    let (entry, params) = block(&mut context, &[i32_ty]);
    let outer = region(&mut context, &[entry]);
    let zero = constant(&mut context, entry, 0, i32_ty);
    let one = constant(&mut context, entry, 1, i32_ty);
    let sum = add(&mut context, inner, args[1], args[0], i32_ty);
    let next = add(&mut context, inner, args[0], one, i32_ty);
    emit(
        &mut context,
        inner,
        OpBuilder::new("scf", "yield").operands(vec![next, sum]),
    );
    let looped = region(&mut context, &[inner]);
    let results = emit(
        &mut context,
        entry,
        OpBuilder::new("scf", "for")
            .operand(zero)
            .operands(vec![zero])
            .operand(params[0])
            .operand(one)
            .result_type(i32_ty)
            .result_type(i32_ty)
            .region(looped),
    );
    ret(&mut context, entry, results);
    let f = function(&mut context, "sum", &[i32_ty], i32_ty, outer);
    assert_eq!(run(&context, f, vec![whole(5)]), Ok(vec![5, 10]));
    // Nothing to count: the loop gives what it was to carry.
    assert_eq!(run(&context, f, vec![whole(0)]), Ok(vec![0, 0]));
}

#[test]
fn a_recursive_call_leaves_the_callers_parameter() {
    let mut context = Context::with_default_dialects();
    let i32_ty = integer(&mut context, 32);
    let (entry, params) = block(&mut context, &[i32_ty]);
    let body = region(&mut context, &[entry]);
    let f = function(&mut context, "triangle", &[i32_ty], i32_ty, body);
    let callee = context.results_of(f)[0];
    let n = params[0];

    let (then_block, _) = block(&mut context, &[]);
    let minus_one = constant(&mut context, then_block, -1, i32_ty);
    let less = add(&mut context, then_block, n, minus_one, i32_ty);
    let below = emit(
        &mut context,
        then_block,
        OpBuilder::new("func", "call").operand(callee).operands(vec![less]).result_type(i32_ty),
    );
    let sum = add(&mut context, then_block, below[0], n, i32_ty);
    emit(&mut context, then_block, OpBuilder::new("scf", "yield").operands(vec![sum]));
    let (else_block, _) = block(&mut context, &[]);
    emit(&mut context, else_block, OpBuilder::new("scf", "yield").operands(vec![n]));
    let taken = region(&mut context, &[then_block]);
    let other = region(&mut context, &[else_block]);
    let results = emit(
        &mut context,
        entry,
        OpBuilder::new("scf", "if").operand(n).result_type(i32_ty).region(taken).region(other),
    );
    ret(&mut context, entry, results);
    assert_eq!(run(&context, f, vec![whole(4)]), Ok(vec![10]));
}

#[test]
fn a_fork_takes_the_block_its_condition_picks() {
    let mut context = Context::with_default_dialects();
    let i32_ty = integer(&mut context, 32);
    let (entry, params) = block(&mut context, &[i32_ty]);
    let (yes, yes_args) = block(&mut context, &[i32_ty]);
    let (no, _) = block(&mut context, &[]);
    let body = region(&mut context, &[entry, yes, no]);
    emit(
        &mut context,
        entry,
        OpBuilder::new("cfg", "cond_br")
            .operand(params[0])
            .operands(vec![params[0]])
            .operands(vec![])
            .segments()
            .attr("true_dest", AttributeValue::Block(yes))
            .attr("false_dest", AttributeValue::Block(no)),
    );
    ret(&mut context, yes, vec![yes_args[0]]);
    let minus = constant(&mut context, no, -7, i32_ty);
    ret(&mut context, no, vec![minus]);
    let f = function(&mut context, "pick", &[i32_ty], i32_ty, body);
    assert_eq!(run(&context, f, vec![whole(3)]), Ok(vec![3]));
    assert_eq!(run(&context, f, vec![whole(0)]), Ok(vec![-7]));
}

#[test]
fn a_call_of_what_is_no_function_is_reported() {
    let mut context = Context::with_default_dialects();
    let i32_ty = integer(&mut context, 32);
    let (entry, params) = block(&mut context, &[i32_ty]);
    let body = region(&mut context, &[entry]);
    emit(
        &mut context,
        entry,
        OpBuilder::new("func", "call").operand(params[0]).result_type(i32_ty),
    );
    ret(&mut context, entry, vec![]);
    let f = function(&mut context, "wrong", &[i32_ty], i32_ty, body);
    assert_eq!(
        run(&context, f, vec![whole(1)]),
        Err("cannot interpret a call whose callee is not a definition".to_string())
    );
}

#[test]
fn memory_gives_back_what_was_written() {
    let mut memory = Memory::default();
    let first = memory.allocate(3, 1);
    let second = memory.allocate(8, 8);
    assert_eq!(first, MEMORY_BASE);
    assert_eq!(second % 8, 0);
    memory.write(second, &vec![1, 2, 3]).expect("in bounds");
    assert_eq!(memory.read(second, 3).expect("written"), vec![1, 2, 3]);
    memory.write_int(second, &IntValue::new(32, 0x1234_5678)).expect("in bounds");
    assert_eq!(memory.read_int(second, 32).expect("written"), IntValue::new(32, 0x1234_5678));
    assert_eq!(memory.read(second, 1).expect("written"), vec![0x78]);
}

#[test]
fn memory_reports_what_it_does_not_hold() {
    let mut memory = Memory::default();
    let address = memory.allocate(4, 4);
    let error = memory.read(address, 4).expect_err("nothing was written");
    assert_eq!(
        error.message(),
        format!("access of [0x{:x}..0x{:x}) hits uninitialized bytes", address, address + 4)
    );
    let error = memory.read(address + 4, 1).expect_err("past the end");
    assert_eq!(
        error.message(),
        format!("access of [0x{:x}..0x{:x}) is out of bounds", address + 4, address + 5)
    );
}

#[test]
fn integers_keep_their_width() {
    assert_eq!(number(&Value::Int(IntValue::new(8, 0xff))), -1);
    assert_eq!(number(&Value::Int(IntValue::new(8, 0x7f))), 127);
    assert_eq!(number(&Value::Int(IntValue::new(64, u64::MAX))), -1);
    assert!(Value::Unit.to_i64().is_none());
}

#[test]
fn an_allocation_evaluates_to_its_address() {
    let mut context = Context::with_default_dialects();
    let pointer = PtrType::opaque(&mut context);
    let alloca = AllocaOpBuilder::new()
        .size(16)
        .align(16)
        .result_type(pointer)
        .build(&mut context);
    let mut memory = Memory::default();
    let values = alloca.evaluate(&context, &vec![], &mut memory).expect("room");
    assert!(matches!(values[0], Value::Ptr(address) if address % 16 == 0));
}

fn double(bits: u64) -> Value {
    Value::Float(FloatValue { exponent: 11, mantissa: 52, bits })
}

fn single(bits: u64) -> Value {
    Value::Float(FloatValue { exponent: 8, mantissa: 23, bits })
}

/// What the detached `fp` operation `name` makes of `operands`.
fn fp(name: &'static str, class: Option<&str>, operands: Vec<Value>) -> Result<Value, String> {
    let mut context = Context::with_default_dialects();
    let mut builder = OpBuilder::new("fp", name);
    if let Some(class) = class {
        builder = builder.attr("class", AttributeValue::Str(class.to_string()));
    }
    let op = builder.build(&mut context);
    let mut memory = Memory::default();
    match eval_leaf(&context, op, &operands, &mut memory, 64, None) {
        Ok(mut values) => Ok(values.pop().expect("one value")),
        Err(e) => Err(e.message()),
    }
}

fn bits(value: &Value) -> u64 {
    match value {
        Value::Float(x) => x.bits,
        Value::Int(n) => n.bits,
        _ => panic!("no bits"),
    }
}

#[test]
fn signs_are_bits() {
    let x = (-1.5f64).to_bits();
    assert_eq!(bits(&fp("neg", None, vec![double(x)]).unwrap()), 1.5f64.to_bits());
    assert_eq!(bits(&fp("abs", None, vec![double(x)]).unwrap()), 1.5f64.to_bits());
    assert_eq!(bits(&fp("signbit", None, vec![double(x)]).unwrap()), 1);
    let y = u64::from(2.0f32.to_bits());
    let copied = fp("copysign", None, vec![single(y), single(u64::from((-1.0f32).to_bits()))]);
    assert_eq!(bits(&copied.unwrap()), u64::from((-2.0f32).to_bits()));
    assert_eq!(bits(&fp("fence", None, vec![double(x)]).unwrap()), x);
    assert_eq!(
        fp("copysign", None, vec![single(y), double(x)]).unwrap_err(),
        "fp.copysign operands have different formats"
    );
    assert_eq!(
        fp("neg", None, vec![whole(1)]).unwrap_err(),
        "floating bit operation requires a float"
    );
}

#[test]
fn a_value_is_of_one_class() {
    let nan = f64::NAN.to_bits();
    let is = |class, x| bits(&fp("classify", Some(class), vec![double(x)]).unwrap());
    assert_eq!(is("quiet_nan", nan), 1);
    assert_eq!(is("signaling_nan", nan), 0);
    assert_eq!(is("negative_zero", (-0.0f64).to_bits()), 1);
    assert_eq!(is("positive_zero", (-0.0f64).to_bits()), 0);
    assert_eq!(is("positive_subnormal", 1), 1);
    assert_eq!(is("negative_infinity", f64::NEG_INFINITY.to_bits()), 1);
}

#[test]
fn what_does_not_evaluate_itself_is_named() {
    assert_eq!(fp("round", None, vec![]).unwrap_err(), "cannot interpret fp.round");
}

#[test]
fn results_are_pinned_to_the_width_declared() {
    let mut context = Context::with_default_dialects();
    let i8_ty = integer(&mut context, 8);
    let i32_ty = integer(&mut context, 32);
    let ptr = context.get_type_id(Type::Ptr(PtrType { pointee: None }));
    let byte = IntValue::new(8, 0xfe);
    let wide = widen_int_to_type(&context, IntValue::new_signed(8, -2), i32_ty, 64);
    assert_eq!(number(&wide), -2);
    let zero = widen_int_to_type(&context, byte, i32_ty, 64);
    assert_eq!(number(&zero), 0xfe);
    let narrow = widen_int_to_type(&context, IntValue::new(32, 0x1_02), i8_ty, 64);
    assert_eq!(number(&narrow), 2);

    let address = from_sem_value(&context, SemValue::Int(IntValue::new(64, 4096)), ptr, 64);
    assert!(matches!(address, Ok(Value::Ptr(4096))));
    let refused = from_sem_value(&context, SemValue::Other, i32_ty, 64);
    assert_eq!(refused.unwrap_err().message(), "integer result must be integral");
    let raw = from_sem_value(&context, SemValue::RawBits(byte), i32_ty, 64);
    assert_eq!(number(&raw.unwrap()), 0xfe);
}

#[test]
fn a_semantic_result_takes_the_type_declared() {
    let mut context = Context::with_default_dialects();
    let i32_ty = integer(&mut context, 32);
    let a = context.create_value(i32_ty, None).id;
    let sum = OpBuilder::new("builtin", "addi").operand(a).operand(a).result_type(i32_ty);
    let sum = sum.build(&mut context);
    let wide = Some(SemValue::Int(IntValue::new(64, 0x1_0000_0002)));
    let operands = vec![whole(40), whole(2)];
    let values = eval_semantic(&context, sum, &operands, 64, wide).expect("a sum");
    assert!(matches!(&values[..], [Value::Int(n)] if *n == IntValue::new(32, 2)));
    let mut memory = Memory::default();
    let values = eval_leaf(&context, sum, &operands, &mut memory, 64, wide).expect("a sum");
    assert_eq!(number(&values[0]), 2);

    let none = eval_semantic(&context, sum, &operands, 64, None);
    assert_eq!(none.unwrap_err().message(), "cannot interpret builtin.addi");
    let state = eval_semantic(&context, sum, &vec![whole(1), Value::State], 64, wide);
    assert_eq!(
        state.unwrap_err().message(),
        "value kind has no semantic-expression form"
    );
    let two = OpBuilder::new("builtin", "addi").result_type(i32_ty).result_type(i32_ty);
    let two = two.build(&mut context);
    assert_eq!(
        eval_semantic(&context, two, &operands, 64, wide).unwrap_err().message(),
        "builtin.addi must have exactly one result"
    );
}

#[test]
fn a_pointer_is_an_integer_in_a_semantic_expression() {
    let Ok(SemValue::Int(n)) = to_sem_value(&Value::Ptr(0x1_0000_0004), 32) else {
        panic!("an integer");
    };
    assert_eq!(n, IntValue::new(32, 4));
    assert!(to_sem_value(&Value::Unit, 64).is_err());
}

#[test]
fn a_run_stops_when_its_fuel_is_spent() {
    let mut context = Context::with_default_dialects();
    let i32_ty = integer(&mut context, 32);
    let (entry, _) = block(&mut context, &[]);
    let body = region(&mut context, &[entry]);
    let two = constant(&mut context, entry, 2, i32_ty);
    ret(&mut context, entry, vec![two]);
    let f = function(&mut context, "two", &[], i32_ty, body);
    let mut run = Run::start(&context, f, &vec![]);
    run.run(&context, 1);
    assert!(matches!(run.step, Step::Leaf(_, _)));
    run.run(&context, 1);
    assert!(matches!(run.step, Step::Ran));
    run.run(&context, 100);
    assert!(matches!(&run.step, Step::Done(values) if number(&values[0]) == 2));
}

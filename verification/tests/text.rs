//! Types, attributes and values in the text form.
use tir::context::Context;
use tir::ids::TypeId;
use tir::parse::lists::{parse_dep_names, parse_dep_operands};
use tir::parse::scope::Scope;
use tir::parse::text::Parser;
use tir::ty::{
    FloatType, FnType, IndexType, IntegerType, PtrType, TupleType, Type, UnitType, VectorType,
};

/// Prints a type, reads the text back and interns what was read.
fn reread(context: &mut Context, ty: TypeId) -> (String, TypeId) {
    let text = context.type_to_string(ty);
    let mut parser = Parser::new(&text);
    let read = parser.parse_type().expect("a type");
    assert_eq!(parser.pos(), text.chars().count());
    let before = context.type_count();
    let again = read.intern(context);
    assert_eq!(context.type_count(), before);
    (text, again)
}

#[test]
fn printed_types_are_read_back() {
    let mut context = Context::with_default_dialects();
    let i32_ty = context.get_type_id(Type::Integer(IntegerType { width: 32 }));
    let f64_ty = context.get_type_id(Type::Float(FloatType { exponent: 11, mantissa: 52 }));
    let unit = context.get_type_id(Type::Unit(UnitType));
    let index = context.get_type_id(Type::Index(IndexType));
    let pair = context.get_type_id(Type::Tuple(TupleType { elements: vec![i32_ty, index] }));
    let opaque = context.get_type_id(Type::Ptr(PtrType { pointee: None }));
    let typed = context.get_type_id(Type::Ptr(PtrType { pointee: Some(pair) }));
    let fixed = context.get_type_id(Type::Vector(VectorType { element: i32_ty, length: Some(8) }));
    let scalable = context.get_type_id(Type::Vector(VectorType { element: f64_ty, length: None }));
    let function = context.get_type_id(Type::Fn(FnType {
        params: vec![typed, fixed, f64_ty],
        ret: unit,
    }));
    for (ty, spelling) in [
        (i32_ty, "!i32"),
        (f64_ty, "!f64"),
        (pair, "!tuple<!i32, !index>"),
        (opaque, "!ptr.p"),
        (typed, "!ptr.p<!tuple<!i32, !index>>"),
        (fixed, "!vector.vec<8xi32>"),
        (scalable, "!vector.vec<f64>"),
        (
            function,
            "!fn<(!ptr.p<!tuple<!i32, !index>>, !vector.vec<8xi32>, !f64) -> !unit>",
        ),
    ] {
        assert_eq!(reread(&mut context, ty), (spelling.to_string(), ty));
    }
}

#[test]
fn a_type_that_is_none_is_reported() {
    let mut parser = Parser::new("  %0");
    let (span, error) = parser.parse_type().expect_err("no type");
    assert_eq!(span.start, 0);
    assert!(error.message().to_lowercase().contains("type"));
    let mut parser = Parser::new("!tuple<!i32");
    assert!(parser.parse_type().is_err());
    let mut parser = Parser::new("!no.such");
    let (_, error) = parser.parse_type().expect_err("unknown");
    assert!(error.message().contains("such"));
}

#[test]
fn dependencies_stand_behind_a_bar() {
    let mut context = Context::with_default_dialects();
    let state = context.create_state();
    let mut scope = Scope::new();
    scope.define_value("s", state);
    let mut parser = Parser::new("| %s, %s");
    assert_eq!(parse_dep_operands(&mut parser, &scope).expect("both known"), vec![state, state]);
    let mut parser = Parser::new("| %t");
    let (_, error) = parse_dep_operands(&mut parser, &scope).expect_err("unknown");
    assert!(error.message().contains("t"));
    let mut parser = Parser::new(" = op");
    assert!(parse_dep_names(&mut parser).expect("none").is_empty());
    let mut parser = Parser::new("| op");
    assert!(parse_dep_names(&mut parser).is_err());
}

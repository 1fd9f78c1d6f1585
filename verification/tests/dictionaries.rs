//! Dictionary attributes, and what is kept in them.
use tir::attributes::{AttributeDict, AttributeValue};
use tir::builder::OpBuilder;
use tir::context::Context;
use tir::dialects::fp::contract::{
    AccuracyRequirement, ArithmeticSemantics, EvaluationContract, IntermediateExceptions,
    ScopedFacts, TransformPermissions,
};
use tir::interp::semantic::pointer_width;
use tir::layout::{data_layout_spec, verify_spec, DataLayout, Endianness};

fn number(n: u64) -> AttributeValue {
    AttributeValue::UInt(n)
}

fn text(s: &str) -> AttributeValue {
    AttributeValue::Str(s.to_string())
}

fn keys(dict: &AttributeDict) -> Vec<String> {
    (0..dict.len()).map(|i| dict.key(i).to_string()).collect()
}

#[test]
fn entries_are_kept_in_the_order_of_their_keys() {
    let one = AttributeDict::new().with("b", number(2)).with("a", number(1)).with("c", number(3));
    assert_eq!(keys(&one), vec!["a", "b", "c"]);
    let other = AttributeDict::new().with("c", number(3)).with("b", number(9)).with("a", number(1));
    assert!(!AttributeValue::Dict(one.copy()).equals(&AttributeValue::Dict(other.copy())));
    let other = other.with("b", number(2));
    assert_eq!(other.len(), 3);
    assert!(AttributeValue::Dict(one).equals(&AttributeValue::Dict(other)));
}

#[test]
fn the_first_fault_is_the_first_by_key() {
    let dict = AttributeDict::new()
        .with("stack_alignment", text("wide"))
        .with("endianness", text("middle"));
    let error = verify_spec(&AttributeValue::Dict(dict)).expect_err("two faults");
    assert!(error.message().contains("'endianness' must be"));
    let class = AttributeDict::new().with("size", text("big")).with("abi", text("odd"));
    let types = AttributeDict::new().with("p", AttributeValue::Dict(class));
    let dict = AttributeDict::new().with("types", AttributeValue::Dict(types));
    let error = verify_spec(&AttributeValue::Dict(dict)).expect_err("two faults");
    assert!(error.message().contains("'p.abi' must be a bit count"));
}

#[test]
fn a_declared_layout_overrides_the_default_key_by_key() {
    let default = data_layout_spec(Endianness::Little, 128, &[("p", 64, 64)]);
    let declared = AttributeDict::new().with("endianness", text("big"));
    let scoped = DataLayout::from_value(&AttributeValue::Dict(declared));
    let layout = DataLayout::for_op_with_default(scoped, Some(&default)).expect("a layout");
    assert_eq!(layout.endianness(), Some(Endianness::Big));
    assert_eq!(layout.stack_alignment(), Some(128));
    assert_eq!(layout.pointer_size(), Some(64));
    let alone = DataLayout::for_op_with_default(None, Some(&default)).expect("the default");
    assert_eq!(alone.endianness(), Some(Endianness::Little));
    assert!(DataLayout::for_op_with_default(None, None).is_none());
}

#[test]
fn a_pointer_is_as_wide_as_the_layout_says() {
    let mut context = Context::with_default_dialects();
    let bare = OpBuilder::new("test", "op").build(&mut context).id;
    assert_eq!(pointer_width(&context, bare, None), 64);
    let narrow = data_layout_spec(Endianness::Little, 64, &[("p", 32, 32)]);
    assert_eq!(pointer_width(&context, bare, DataLayout::from_value(&narrow)), 32);
    let own = data_layout_spec(Endianness::Little, 64, &[("p", 16, 16)]);
    let carrying = OpBuilder::new("test", "op").attr("data_layout", own).build(&mut context).id;
    assert_eq!(pointer_width(&context, carrying, None), 16);
    assert_eq!(pointer_width(&context, carrying, DataLayout::from_value(&narrow)), 32);
}

fn contract(fields: Vec<(String, String)>) -> EvaluationContract {
    EvaluationContract {
        arithmetic: ArithmeticSemantics { fields },
        permissions: TransformPermissions {
            expression_contraction: true,
            cross_statement_contraction: false,
            reassociation: false,
            reciprocal: true,
            approved_approximation: false,
            ignore_signed_zero: false,
        },
        assumptions: ScopedFacts { finite: true },
        accuracy: AccuracyRequirement::ApprovedAlgorithms(vec!["cordic".to_string()]),
        result_formats: vec![],
        environment_epoch: 3,
        intermediate_exceptions: IntermediateExceptions::Preserve,
    }
}

#[test]
fn arithmetic_has_to_name_a_mode() {
    let mode = |name: &str| (name.to_string(), "tonearest".to_string());
    let named = contract(vec![mode("exceptions"), mode("rounding")]).attribute();
    let read = EvaluationContract::parse_attribute(&named).expect("a contract");
    assert_eq!(read.arithmetic.fields, vec![mode("exceptions"), mode("rounding")]);
    assert_eq!(read.environment_epoch, 3);
    for fields in [vec![], vec![mode("color")]] {
        let error = EvaluationContract::parse_attribute(&contract(fields).attribute());
        let error = error.expect_err("no mode");
        assert!(error.message().contains("must name a rounding or an exception mode"));
    }
}

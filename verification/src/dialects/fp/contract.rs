//! What a rounded evaluation promises: how its arithmetic behaves, which
//! transforms it allows, what it takes for granted, and how exact it must be.
//! A contract is carried as an attribute, read field by field.
use vstd::prelude::*;
use crate::access::types_attr;
use crate::access::types_attr_view;
use crate::attributes::attr_view;
use crate::attributes::attr_views;
use crate::attributes::dict_lookup;
use crate::attributes::entry_view;
use crate::attributes::entry_views;
use crate::attributes::last_entry_is_appended;
use crate::attributes::neighbours_make_order;
use crate::attributes::rises;
use crate::attributes::with_entry;
use crate::attributes::AttrView;
use crate::attributes::AttributeDict;
use crate::attributes::AttributeValue;
use crate::attributes::DictEntry;
use crate::error::invalid;
use crate::error::Error;
use crate::error::ErrorView;
use crate::ids::TypeId;
use crate::text::cat2;
use crate::text::cat3;
use crate::text::same;
use crate::text::text_less;
use crate::text::text_order_is_total;

verus! {

/// How arithmetic behaves: its properties by name.
#[derive(Debug)]
pub struct ArithmeticSemantics {
    pub fields: Vec<(String, String)>,
}

/// Which transforms an evaluation allows.
#[derive(Clone, Copy, Debug, PartialEq, Eq, Structural)]
pub struct TransformPermissions {
    pub expression_contraction: bool,
    pub cross_statement_contraction: bool,
    pub reassociation: bool,
    pub reciprocal: bool,
    pub approved_approximation: bool,
    pub ignore_signed_zero: bool,
}

/// What an evaluation takes for granted.
#[derive(Clone, Copy, Debug, PartialEq, Eq, Structural)]
pub struct ScopedFacts {
    pub finite: bool,
}

/// What becomes of exceptions inside a contracted group.
#[derive(Clone, Copy, Debug, PartialEq, Eq, Structural)]
pub enum IntermediateExceptions {
    Preserve,
    AllowContractedGroupRemoval,
}

/// How exact a result must be.
#[derive(Debug)]
pub enum AccuracyRequirement {
    Reference,
    CorrectlyRounded,
    Bounded(ErrorBound),
    ApprovedAlgorithms(Vec<String>),
}

/// How far a result may be from the exact one.
#[derive(Debug)]
pub struct ErrorBound {
    pub reference: String,
    pub metric: String,
    pub maximum_bits: u64,
    pub finite_domain: String,
    pub zero: String,
    pub subnormal: String,
    pub exceptional: String,
}

/// What a rounded evaluation promises.
#[derive(Debug)]
pub struct EvaluationContract {
    pub arithmetic: ArithmeticSemantics,
    pub permissions: TransformPermissions,
    pub assumptions: ScopedFacts,
    pub accuracy: AccuracyRequirement,
    pub result_formats: Vec<TypeId>,
    pub environment_epoch: u64,
    pub intermediate_exceptions: IntermediateExceptions,
}

/// What an accuracy requirement says.
pub ghost enum AccuracyView {
    Reference,
    CorrectlyRounded,
    Bounded(BoundView),
    ApprovedAlgorithms(Seq<Seq<char>>),
}

/// What an error bound says.
pub ghost struct BoundView {
    pub reference: Seq<char>,
    pub metric: Seq<char>,
    pub maximum_bits: nat,
    pub finite_domain: Seq<char>,
    pub zero: Seq<char>,
    pub subnormal: Seq<char>,
    pub exceptional: Seq<char>,
}

/// What a contract says.
pub ghost struct ContractView {
    pub arithmetic: Seq<(Seq<char>, Seq<char>)>,
    pub permissions: TransformPermissions,
    pub assumptions: ScopedFacts,
    pub accuracy: AccuracyView,
    pub result_formats: Seq<TypeId>,
    pub environment_epoch: nat,
    pub intermediate_exceptions: IntermediateExceptions,
}

/// What the strings of a list hold.
pub open spec fn strings_of(list: Seq<String>) -> Seq<Seq<char>> {
    list.map_values(|s: String| s@)
}

/// What the pairs of strings of a list hold.
pub open spec fn pairs_of(list: Seq<(String, String)>) -> Seq<(Seq<char>, Seq<char>)> {
    list.map_values(|p: (String, String)| (p.0@, p.1@))
}

impl View for AccuracyRequirement {
    type V = AccuracyView;

    open spec fn view(&self) -> AccuracyView {
        match self {
            AccuracyRequirement::Reference => AccuracyView::Reference,
            AccuracyRequirement::CorrectlyRounded => AccuracyView::CorrectlyRounded,
            AccuracyRequirement::Bounded(b) => AccuracyView::Bounded(
                BoundView {
                    reference: b.reference@,
                    metric: b.metric@,
                    maximum_bits: b.maximum_bits as nat,
                    finite_domain: b.finite_domain@,
                    zero: b.zero@,
                    subnormal: b.subnormal@,
                    exceptional: b.exceptional@,
                },
            ),
            AccuracyRequirement::ApprovedAlgorithms(names) => AccuracyView::ApprovedAlgorithms(
                strings_of(names@),
            ),
        }
    }
}

impl View for EvaluationContract {
    type V = ContractView;

    open spec fn view(&self) -> ContractView {
        ContractView {
            arithmetic: pairs_of(self.arithmetic.fields@),
            permissions: self.permissions,
            assumptions: self.assumptions,
            accuracy: self.accuracy@,
            result_formats: self.result_formats@,
            environment_epoch: self.environment_epoch as nat,
            intermediate_exceptions: self.intermediate_exceptions,
        }
    }
}

/// The entries of a dictionary.
pub type Fields = Seq<(Seq<char>, AttrView)>;

/// A field as a string, or why it is none.
pub open spec fn string_field(fields: Fields, name: Seq<char>) -> Result<Seq<char>, Seq<char>> {
    match dict_lookup(fields, name) {
        Some(AttrView::Str(s)) => Ok(s),
        Some(_) => Err("contract field '"@ + name + "' must be a string"@),
        None => Err("missing contract field '"@ + name + "'"@),
    }
}

/// A field as a boolean, or why it is none.
pub open spec fn bool_field(fields: Fields, name: Seq<char>) -> Result<bool, Seq<char>> {
    match dict_lookup(fields, name) {
        Some(AttrView::Bool(b)) => Ok(b),
        Some(_) => Err("contract field '"@ + name + "' must be a boolean"@),
        None => Err("missing contract field '"@ + name + "'"@),
    }
}

/// A field as an unsigned number, or why it is none.
pub open spec fn number_field(fields: Fields, name: Seq<char>) -> Result<nat, Seq<char>> {
    match dict_lookup(fields, name) {
        Some(AttrView::UInt(n)) => Ok(n),
        Some(AttrView::Int(n)) => if n >= 0 {
            Ok(n as nat)
        } else {
            Err("contract field '"@ + name + "' must be unsigned"@)
        },
        Some(_) => Err("contract field '"@ + name + "' must be unsigned"@),
        None => Err("missing contract field '"@ + name + "'"@),
    }
}

/// The entries of an attribute that is a dictionary, or that it is none.
pub open spec fn dict_of(value: AttrView, name: Seq<char>) -> Result<Fields, Seq<char>> {
    match value {
        AttrView::Dict(fields) => Ok(fields),
        _ => Err(name + " must be a dictionary"@),
    }
}

/// A field that is a dictionary, or why it is none.
pub open spec fn dict_field(fields: Fields, name: Seq<char>) -> Result<Fields, Seq<char>> {
    match dict_lookup(fields, name) {
        Some(value) => dict_of(value, name),
        None => Err("missing contract field '"@ + name + "'"@),
    }
}

/// A field that is an array, or why it is none.
pub open spec fn array_field(fields: Fields, name: Seq<char>) -> Result<Seq<AttrView>, Seq<char>> {
    match dict_lookup(fields, name) {
        Some(AttrView::Array(items)) => Ok(items),
        Some(_) => Err(name + " must be an array"@),
        None => Err("missing contract field '"@ + name + "'"@),
    }
}

/// Whether a dictionary has the fields `names`, and no others.
pub open spec fn exactly(fields: Fields, names: Seq<Seq<char>>) -> bool {
    fields.len() == names.len() && forall|i: int|
        0 <= i < names.len() ==> dict_lookup(fields, #[trigger] names[i]) is Some
}

/// Whether a result is what a reading says, an error being a failed
/// verification.
pub open spec fn reads<T, V>(r: Result<T, Error>, want: Result<V, Seq<char>>, as_view: spec_fn(T) -> V) -> bool {
    match (r, want) {
        (Ok(value), Ok(view)) => as_view(value) == view,
        (Err(e), Err(message)) => e@ == ErrorView::VerificationError(message),
        _ => false,
    }
}

fn missing(name: &str) -> (e: Error)
    ensures
        e@ == ErrorView::VerificationError("missing contract field '"@ + name@ + "'"@),
{
    invalid(cat3("missing contract field '", name, "'").as_str())
}

fn string_in(fields: &AttributeDict, name: &str) -> (r: Result<String, Error>)
    ensures
        reads(r, string_field(fields@, name@), |s: String| s@),
{
    match fields.get(name) {
        Some(AttributeValue::Str(s)) => Ok(s.clone()),
        Some(_) => Err(
            invalid(cat3("contract field '", name, "' must be a string").as_str()),
        ),
        None => Err(missing(name)),
    }
}

fn bool_in(fields: &AttributeDict, name: &str) -> (r: Result<bool, Error>)
    ensures
        reads(r, bool_field(fields@, name@), |b: bool| b),
{
    match fields.get(name) {
        Some(AttributeValue::Bool(b)) => Ok(*b),
        Some(_) => Err(
            invalid(cat3("contract field '", name, "' must be a boolean").as_str()),
        ),
        None => Err(missing(name)),
    }
}

fn number_in(fields: &AttributeDict, name: &str) -> (r: Result<u64, Error>)
    ensures
        reads(r, number_field(fields@, name@), |n: u64| n as nat),
{
    match fields.get(name) {
        Some(AttributeValue::UInt(n)) => Ok(*n),
        Some(AttributeValue::Int(n)) => if *n >= 0 {
            Ok(*n as u64)
        } else {
            Err(invalid(cat3("contract field '", name, "' must be unsigned").as_str()))
        },
        Some(_) => Err(
            invalid(cat3("contract field '", name, "' must be unsigned").as_str()),
        ),
        None => Err(missing(name)),
    }
}

fn dict_value<'a>(value: &'a AttributeValue, name: &str) -> (r: Result<&'a AttributeDict, Error>)
    ensures
        reads(r, dict_of(value@, name@), |entries: &'a AttributeDict| entries@),
{
    match value {
        AttributeValue::Dict(entries) => {
            Ok(entries)
        },
        _ => Err(invalid(cat2(name, " must be a dictionary").as_str())),
    }
}

fn dict_in<'a>(fields: &'a AttributeDict, name: &str) -> (r: Result<&'a AttributeDict, Error>)
    ensures
        reads(
            r,
            dict_field(fields@, name@),
            |entries: &'a AttributeDict| entries@,
        ),
{
    match fields.get(name) {
        Some(value) => dict_value(value, name),
        None => Err(missing(name)),
    }
}

fn array_in<'a>(fields: &'a AttributeDict, name: &str) -> (r: Result<&'a Vec<AttributeValue>, Error>)
    ensures
        reads(
            r,
            array_field(fields@, name@),
            |items: &'a Vec<AttributeValue>| attr_views(items@),
        ),
{
    match fields.get(name) {
        Some(AttributeValue::Array(items)) => {
            assert(attr_views(items@) =~= attr_view(AttributeValue::Array(*items))->Array_0);
            Ok(items)
        },
        Some(_) => Err(invalid(cat2(name, " must be an array").as_str())),
        None => Err(missing(name)),
    }
}

/// What the names of a list hold.
pub open spec fn names_of(list: Seq<&'static str>) -> Seq<Seq<char>> {
    list.map_values(|s: &'static str| s@)
}

fn has_exactly(fields: &AttributeDict, names: &Vec<&'static str>) -> (r: bool)
    ensures
        r == exactly(fields@, names_of(names@)),
{
    let ghost views = fields@;
    let ghost want = names_of(names@);
    if fields.len() != names.len() {
        return false;
    }
    let mut i: usize = 0;
    while i < names.len()
        invariant
            i <= names.len(),
            views == fields@,
            want == names_of(names@),
            fields@.len() == names.len(),
            forall|k: int| 0 <= k < i ==> dict_lookup(views, #[trigger] want[k]) is Some,
        decreases names.len() - i,
    {
        assert(want[i as int] == names@[i as int]@);
        if fields.get(names[i]).is_none() {
            assert(dict_lookup(views, want[i as int]) is None);
            return false;
        }
        i += 1;
    }
    true
}

/// That a dictionary's fields are not those of its kind.
pub open spec fn mismatched() -> Seq<char> {
    "contract fields do not match the selected kind"@
}

/// The fields of a contract.
pub open spec fn contract_names() -> Seq<Seq<char>> {
    seq![
        "accuracy"@,
        "arithmetic"@,
        "assumptions"@,
        "environment_epoch"@,
        "intermediate_exceptions"@,
        "permissions"@,
        "result_formats"@,
    ]
}

/// The fields that say which transforms are allowed.
pub open spec fn permission_names() -> Seq<Seq<char>> {
    seq![
        "approved_approximation"@,
        "cross_statement_contraction"@,
        "expression_contraction"@,
        "ignore_signed_zero"@,
        "reassociation"@,
        "reciprocal"@,
    ]
}

/// The fields of an error bound.
pub open spec fn bound_names() -> Seq<Seq<char>> {
    seq![
        "exceptional"@,
        "finite_domain"@,
        "kind"@,
        "maximum_bits"@,
        "metric"@,
        "reference"@,
        "subnormal"@,
        "zero"@,
    ]
}

/// Whether every entry of a dictionary is a string.
pub open spec fn all_strings(fields: Fields) -> bool {
    forall|i: int| 0 <= i < fields.len() ==> (#[trigger] fields[i]).1 is Str
}

/// Whether properties say how arithmetic rounds or what it does on an exception.
pub open spec fn names_a_mode(fields: Fields) -> bool {
    dict_lookup(fields, "rounding"@) is Some || dict_lookup(fields, "exceptions"@) is Some
}

/// The properties arithmetic is said to have, or why it is not said.
pub open spec fn arithmetic_of(value: AttrView) -> Result<Seq<(Seq<char>, Seq<char>)>, Seq<char>> {
    match value {
        AttrView::Dict(fields) => if !all_strings(fields) {
            Err("arithmetic properties must be strings"@)
        } else if !names_a_mode(fields) {
            Err("arithmetic must name a rounding or an exception mode"@)
        } else {
            Ok(fields.map_values(|f: (Seq<char>, AttrView)| (f.0, f.1->Str_0)))
        },
        _ => Err("arithmetic must be a dictionary"@),
    }
}

/// The transforms that are allowed, or why it is not said.
pub open spec fn permissions_of(fields: Fields) -> Result<TransformPermissions, Seq<char>> {
    match bool_field(fields, "expression_contraction"@) {
        Err(e) => Err(e),
        Ok(expression_contraction) => match bool_field(fields, "cross_statement_contraction"@) {
            Err(e) => Err(e),
            Ok(cross_statement_contraction) => match bool_field(fields, "reassociation"@) {
                Err(e) => Err(e),
                Ok(reassociation) => match bool_field(fields, "reciprocal"@) {
                    Err(e) => Err(e),
                    Ok(reciprocal) => match bool_field(fields, "approved_approximation"@) {
                        Err(e) => Err(e),
                        Ok(approved_approximation) => match bool_field(
                            fields,
                            "ignore_signed_zero"@,
                        ) {
                            Err(e) => Err(e),
                            Ok(ignore_signed_zero) => Ok(
                                TransformPermissions {
                                    expression_contraction,
                                    cross_statement_contraction,
                                    reassociation,
                                    reciprocal,
                                    approved_approximation,
                                    ignore_signed_zero,
                                },
                            ),
                        },
                    },
                },
            },
        },
    }
}

fn permissions_in(fields: &AttributeDict) -> (r: Result<TransformPermissions, Error>)
    ensures
        reads(r, permissions_of(fields@), |p: TransformPermissions| p),
{
    let expression_contraction = match bool_in(fields, "expression_contraction") {
        Ok(b) => b,
        Err(e) => {
            return Err(e);
        },
    };
    let cross_statement_contraction = match bool_in(fields, "cross_statement_contraction") {
        Ok(b) => b,
        Err(e) => {
            return Err(e);
        },
    };
    let reassociation = match bool_in(fields, "reassociation") {
        Ok(b) => b,
        Err(e) => {
            return Err(e);
        },
    };
    let reciprocal = match bool_in(fields, "reciprocal") {
        Ok(b) => b,
        Err(e) => {
            return Err(e);
        },
    };
    let approved_approximation = match bool_in(fields, "approved_approximation") {
        Ok(b) => b,
        Err(e) => {
            return Err(e);
        },
    };
    let ignore_signed_zero = match bool_in(fields, "ignore_signed_zero") {
        Ok(b) => b,
        Err(e) => {
            return Err(e);
        },
    };
    Ok(
        TransformPermissions {
            expression_contraction,
            cross_statement_contraction,
            reassociation,
            reciprocal,
            approved_approximation,
            ignore_signed_zero,
        },
    )
}

/// An error bound, or why it is none.
pub open spec fn bound_of(fields: Fields) -> Result<AccuracyView, Seq<char>> {
    match string_field(fields, "reference"@) {
        Err(e) => Err(e),
        Ok(reference) => match string_field(fields, "metric"@) {
            Err(e) => Err(e),
            Ok(metric) => match number_field(fields, "maximum_bits"@) {
                Err(e) => Err(e),
                Ok(maximum_bits) => match string_field(fields, "finite_domain"@) {
                    Err(e) => Err(e),
                    Ok(finite_domain) => match string_field(fields, "zero"@) {
                        Err(e) => Err(e),
                        Ok(zero) => match string_field(fields, "subnormal"@) {
                            Err(e) => Err(e),
                            Ok(subnormal) => match string_field(fields, "exceptional"@) {
                                Err(e) => Err(e),
                                Ok(exceptional) => Ok(
                                    AccuracyView::Bounded(
                                        BoundView {
                                            reference,
                                            metric,
                                            maximum_bits,
                                            finite_domain,
                                            zero,
                                            subnormal,
                                            exceptional,
                                        },
                                    ),
                                ),
                            },
                        },
                    },
                },
            },
        },
    }
}

fn bound_in(fields: &AttributeDict) -> (r: Result<AccuracyRequirement, Error>)
    ensures
        reads(r, bound_of(fields@), |a: AccuracyRequirement| a@),
{
    let reference = match string_in(fields, "reference") {
        Ok(s) => s,
        Err(e) => {
            return Err(e);
        },
    };
    let metric = match string_in(fields, "metric") {
        Ok(s) => s,
        Err(e) => {
            return Err(e);
        },
    };
    let maximum_bits: u64 = match number_in(fields, "maximum_bits") {
        Ok(n) => n,
        Err(e) => {
            return Err(e);
        },
    };
    let finite_domain = match string_in(fields, "finite_domain") {
        Ok(s) => s,
        Err(e) => {
            return Err(e);
        },
    };
    let zero = match string_in(fields, "zero") {
        Ok(s) => s,
        Err(e) => {
            return Err(e);
        },
    };
    let subnormal = match string_in(fields, "subnormal") {
        Ok(s) => s,
        Err(e) => {
            return Err(e);
        },
    };
    let exceptional = match string_in(fields, "exceptional") {
        Ok(s) => s,
        Err(e) => {
            return Err(e);
        },
    };
    Ok(
        AccuracyRequirement::Bounded(
            ErrorBound {
                reference,
                metric,
                maximum_bits,
                finite_domain,
                zero,
                subnormal,
                exceptional,
            },
        ),
    )
}

/// Whether every entry of a list is a string.
pub open spec fn string_items(items: Seq<AttrView>) -> bool {
    forall|i: int| 0 <= i < items.len() ==> (#[trigger] items[i]) is Str
}

/// The algorithms that are approved, or why it is not said.
pub open spec fn algorithms_of(fields: Fields) -> Result<AccuracyView, Seq<char>> {
    match array_field(fields, "algorithms"@) {
        Err(e) => Err(e),
        Ok(items) => if string_items(items) {
            Ok(
                AccuracyView::ApprovedAlgorithms(
                    items.map_values(|item: AttrView| item->Str_0),
                ),
            )
        } else {
            Err("algorithm names must be strings"@)
        },
    }
}

fn algorithms_in(fields: &AttributeDict) -> (r: Result<AccuracyRequirement, Error>)
    ensures
        reads(r, algorithms_of(fields@), |a: AccuracyRequirement| a@),
{
    let items = match array_in(fields, "algorithms") {
        Ok(items) => items,
        Err(e) => {
            return Err(e);
        },
    };
    let ghost views = attr_views(items@);
    let mut names: Vec<String> = Vec::new();
    let mut i: usize = 0;
    while i < items.len()
        invariant
            i <= items.len(),
            views == attr_views(items@),
            array_field(fields@, "algorithms"@) == Ok::<Seq<AttrView>, Seq<char>>(
                views,
            ),
            names.len() == i,
            forall|k: int|
                0 <= k < i ==> (#[trigger] views[k]) is Str && names@[k]@ == views[k]->Str_0,
        decreases items.len() - i,
    {
        assert(views[i as int] == attr_view(items@[i as int]));
        match items[i].as_str() {
            Some(name) => {
                names.push(name.to_owned());
            },
            None => {
                assert(!string_items(views));
                return Err(invalid("algorithm names must be strings"));
            },
        }
        i += 1;
    }
    assert(strings_of(names@) =~= views.map_values(|item: AttrView| item->Str_0));
    Ok(AccuracyRequirement::ApprovedAlgorithms(names))
}

/// An accuracy requirement, or why it is none.
pub open spec fn accuracy_of(value: AttrView) -> Result<AccuracyView, Seq<char>> {
    match dict_of(value, "accuracy"@) {
        Err(e) => Err(e),
        Ok(fields) => match string_field(fields, "kind"@) {
            Err(e) => Err(e),
            Ok(kind) => if kind == "reference"@ {
                if exactly(fields, seq!["kind"@]) {
                    Ok(AccuracyView::Reference)
                } else {
                    Err(mismatched())
                }
            } else if kind == "correctly_rounded"@ {
                if exactly(fields, seq!["kind"@]) {
                    Ok(AccuracyView::CorrectlyRounded)
                } else {
                    Err(mismatched())
                }
            } else if kind == "approved_algorithms"@ {
                if exactly(fields, seq!["algorithms"@, "kind"@]) {
                    algorithms_of(fields)
                } else {
                    Err(mismatched())
                }
            } else if kind == "bounded"@ {
                if exactly(fields, bound_names()) {
                    bound_of(fields)
                } else {
                    Err(mismatched())
                }
            } else {
                Err("unknown accuracy requirement"@)
            },
        },
    }
}

fn expect_exactly(fields: &AttributeDict, names: &Vec<&'static str>) -> (r: Result<(), Error>)
    ensures
        match r {
            Ok(_) => exactly(fields@, names_of(names@)),
            Err(e) => !exactly(fields@, names_of(names@)) && e@
                == ErrorView::VerificationError(mismatched()),
        },
{
    if has_exactly(fields, names) {
        Ok(())
    } else {
        Err(invalid("contract fields do not match the selected kind"))
    }
}

fn accuracy_in(value: &AttributeValue) -> (r: Result<AccuracyRequirement, Error>)
    ensures
        reads(r, accuracy_of(value@), |a: AccuracyRequirement| a@),
{
    let fields = match dict_value(value, "accuracy") {
        Ok(fields) => fields,
        Err(e) => {
            return Err(e);
        },
    };
    let kind = match string_in(fields, "kind") {
        Ok(kind) => kind,
        Err(e) => {
            return Err(e);
        },
    };
    let mut names: Vec<&'static str> = Vec::new();
    if same(kind.as_str(), "reference") {
        names.push("kind");
        assert(names_of(names@) =~= seq!["kind"@]);
        match expect_exactly(fields, &names) {
            Ok(_) => Ok(AccuracyRequirement::Reference),
            Err(e) => Err(e),
        }
    } else if same(kind.as_str(), "correctly_rounded") {
        names.push("kind");
        assert(names_of(names@) =~= seq!["kind"@]);
        match expect_exactly(fields, &names) {
            Ok(_) => Ok(AccuracyRequirement::CorrectlyRounded),
            Err(e) => Err(e),
        }
    } else if same(kind.as_str(), "approved_algorithms") {
        names.push("algorithms");
        names.push("kind");
        assert(names_of(names@) =~= seq!["algorithms"@, "kind"@]);
        match expect_exactly(fields, &names) {
            Ok(_) => algorithms_in(fields),
            Err(e) => Err(e),
        }
    } else if same(kind.as_str(), "bounded") {
        names.push("exceptional");
        names.push("finite_domain");
        names.push("kind");
        names.push("maximum_bits");
        names.push("metric");
        names.push("reference");
        names.push("subnormal");
        names.push("zero");
        assert(names_of(names@) =~= bound_names());
        match expect_exactly(fields, &names) {
            Ok(_) => bound_in(fields),
            Err(e) => Err(e),
        }
    } else {
        Err(invalid("unknown accuracy requirement"))
    }
}

/// Whether every entry of a list is a type.
pub open spec fn type_entries(items: Seq<AttrView>) -> bool {
    forall|i: int| 0 <= i < items.len() ==> (#[trigger] items[i]) is Type
}

/// The formats of the results, or why they are not said.
pub open spec fn formats_of(fields: Fields) -> Result<Seq<TypeId>, Seq<char>> {
    match array_field(fields, "result_formats"@) {
        Err(e) => Err(e),
        Ok(items) => if type_entries(items) {
            Ok(items.map_values(|item: AttrView| item->Type_0))
        } else {
            Err("contract result_formats entries must be types"@)
        },
    }
}

fn formats_in(fields: &AttributeDict) -> (r: Result<Vec<TypeId>, Error>)
    ensures
        reads(r, formats_of(fields@), |types: Vec<TypeId>| types@),
{
    let items = match array_in(fields, "result_formats") {
        Ok(items) => items,
        Err(e) => {
            return Err(e);
        },
    };
    let ghost views = attr_views(items@);
    let mut types: Vec<TypeId> = Vec::new();
    let mut i: usize = 0;
    while i < items.len()
        invariant
            i <= items.len(),
            views == attr_views(items@),
            array_field(fields@, "result_formats"@) == Ok::<
                Seq<AttrView>,
                Seq<char>,
            >(views),
            types.len() == i,
            forall|k: int|
                0 <= k < i ==> (#[trigger] views[k]) is Type && types@[k] == views[k]->Type_0,
        decreases items.len() - i,
    {
        assert(views[i as int] == attr_view(items@[i as int]));
        match &items[i] {
            AttributeValue::Type(ty) => {
                types.push(*ty);
            },
            _ => {
                assert(!type_entries(views));
                return Err(invalid("contract result_formats entries must be types"));
            },
        }
        i += 1;
    }
    assert(types@ =~= views.map_values(|item: AttrView| item->Type_0));
    Ok(types)
}

/// Reads the properties arithmetic is said to have.
pub fn arithmetic_in(value: &AttributeValue) -> (r: Result<ArithmeticSemantics, Error>)
    ensures
        reads(r, arithmetic_of(value@), |a: ArithmeticSemantics| pairs_of(a.fields@)),
{
    let fields = match value {
        AttributeValue::Dict(entries) => entries,
        _ => {
            return Err(invalid("arithmetic must be a dictionary"));
        },
    };
    let ghost views = fields@;
    let n: usize = fields.len();
    let mut pairs: Vec<(String, String)> = Vec::new();
    let mut i: usize = 0;
    while i < n
        invariant
            i <= n,
            n == fields@.len(),
            views == fields@,
            value@ == AttrView::Dict(views),
            pairs.len() == i,
            forall|k: int|
                0 <= k < i ==> (#[trigger] views[k]).1 is Str && (pairs@[k].0@, pairs@[k].1@) == (
                    views[k].0,
                    views[k].1->Str_0,
                ),
        decreases n - i,
    {
        match fields.value(i).as_str() {
            Some(text) => {
                pairs.push((fields.key(i).to_owned(), text.to_owned()));
            },
            None => {
                assert(!all_strings(views));
                return Err(invalid("arithmetic properties must be strings"));
            },
        }
        i += 1;
    }
    assert(pairs_of(pairs@) =~= views.map_values(
        |f: (Seq<char>, AttrView)| (f.0, f.1->Str_0),
    ));
    if fields.get("rounding").is_none() && fields.get("exceptions").is_none() {
        return Err(invalid("arithmetic must name a rounding or an exception mode"));
    }
    Ok(ArithmeticSemantics { fields: pairs })
}

/// What becomes of exceptions inside a contracted group, or why it is not said.
pub open spec fn exceptions_of(fields: Fields) -> Result<IntermediateExceptions, Seq<char>> {
    match string_field(fields, "intermediate_exceptions"@) {
        Err(e) => Err(e),
        Ok(text) => if text == "preserve"@ {
            Ok(IntermediateExceptions::Preserve)
        } else if text == "allow_contracted_group_removal"@ {
            Ok(IntermediateExceptions::AllowContractedGroupRemoval)
        } else {
            Err("unknown intermediate exception contract"@)
        },
    }
}

fn exceptions_in(fields: &AttributeDict) -> (r: Result<IntermediateExceptions, Error>)
    ensures
        reads(r, exceptions_of(fields@), |x: IntermediateExceptions| x),
{
    match string_in(fields, "intermediate_exceptions") {
        Err(e) => Err(e),
        Ok(text) => if same(text.as_str(), "preserve") {
            Ok(IntermediateExceptions::Preserve)
        } else if same(text.as_str(), "allow_contracted_group_removal") {
            Ok(IntermediateExceptions::AllowContractedGroupRemoval)
        } else {
            Err(invalid("unknown intermediate exception contract"))
        },
    }
}

/// The fields of a contract that are dictionaries of their own, where they have
/// the fields they must, or why they do not.
pub open spec fn parts_of(fields: Fields) -> Result<(Fields, Fields), Seq<char>> {
    match dict_field(fields, "permissions"@) {
        Err(e) => Err(e),
        Ok(permissions) => if !exactly(permissions, permission_names()) {
            Err(mismatched())
        } else {
            match dict_field(fields, "assumptions"@) {
                Err(e) => Err(e),
                Ok(assumptions) => if !exactly(assumptions, seq!["finite"@]) {
                    Err(mismatched())
                } else {
                    Ok((permissions, assumptions))
                },
            }
        },
    }
}

fn parts_in<'a>(fields: &'a AttributeDict) -> (r: Result<
    (&'a AttributeDict, &'a AttributeDict),
    Error,
>)
    ensures
        reads(
            r,
            parts_of(fields@),
            |p: (&'a AttributeDict, &'a AttributeDict)| (p.0@, p.1@),
        ),
{
    let permissions = match dict_in(fields, "permissions") {
        Ok(permissions) => permissions,
        Err(e) => {
            return Err(e);
        },
    };
    let mut names: Vec<&'static str> = Vec::new();
    names.push("approved_approximation");
    names.push("cross_statement_contraction");
    names.push("expression_contraction");
    names.push("ignore_signed_zero");
    names.push("reassociation");
    names.push("reciprocal");
    assert(names_of(names@) =~= permission_names());
    if let Err(e) = expect_exactly(permissions, &names) {
        return Err(e);
    }
    let assumptions = match dict_in(fields, "assumptions") {
        Ok(assumptions) => assumptions,
        Err(e) => {
            return Err(e);
        },
    };
    let mut names: Vec<&'static str> = Vec::new();
    names.push("finite");
    assert(names_of(names@) =~= seq!["finite"@]);
    if let Err(e) = expect_exactly(assumptions, &names) {
        return Err(e);
    }
    Ok((permissions, assumptions))
}

/// What is said of the contract beside its arithmetic, its parts, its formats
/// and its exceptions, which are read before.
pub open spec fn contract_with(
    fields: Fields,
    arithmetic: Seq<(Seq<char>, Seq<char>)>,
    parts: (Fields, Fields),
    result_formats: Seq<TypeId>,
    intermediate_exceptions: IntermediateExceptions,
) -> Result<ContractView, Seq<char>> {
    match permissions_of(parts.0) {
        Err(e) => Err(e),
        Ok(permissions) => match bool_field(parts.1, "finite"@) {
            Err(e) => Err(e),
            Ok(finite) => match accuracy_of(dict_lookup(fields, "accuracy"@)->0) {
                Err(e) => Err(e),
                Ok(accuracy) => match number_field(fields, "environment_epoch"@) {
                    Err(e) => Err(e),
                    Ok(environment_epoch) => Ok(
                        ContractView {
                            arithmetic,
                            permissions,
                            assumptions: ScopedFacts { finite },
                            accuracy,
                            result_formats,
                            environment_epoch,
                            intermediate_exceptions,
                        },
                    ),
                },
            },
        },
    }
}

/// The contract an attribute says, or why it says none.
pub open spec fn contract_of(value: AttrView) -> Result<ContractView, Seq<char>> {
    match dict_of(value, "contract"@) {
        Err(e) => Err(e),
        Ok(fields) => if !exactly(fields, contract_names()) {
            Err(mismatched())
        } else {
            match arithmetic_of(dict_lookup(fields, "arithmetic"@)->0) {
                Err(e) => Err(e),
                Ok(arithmetic) => match parts_of(fields) {
                    Err(e) => Err(e),
                    Ok(parts) => match formats_of(fields) {
                        Err(e) => Err(e),
                        Ok(formats) => match exceptions_of(fields) {
                            Err(e) => Err(e),
                            Ok(exceptions) => contract_with(
                                fields,
                                arithmetic,
                                parts,
                                formats,
                                exceptions,
                            ),
                        },
                    },
                },
            }
        },
    }
}

impl EvaluationContract {
    /// Reads a contract from the attribute that carries it.
    pub fn parse_attribute(value: &AttributeValue) -> (r: Result<Self, Error>)
        ensures
            reads(r, contract_of(value@), |c: EvaluationContract| c@),
    {
        let fields = match dict_value(value, "contract") {
            Ok(fields) => fields,
            Err(e) => {
                return Err(e);
            },
        };
        let mut names: Vec<&'static str> = Vec::new();
        names.push("accuracy");
        names.push("arithmetic");
        names.push("assumptions");
        names.push("environment_epoch");
        names.push("intermediate_exceptions");
        names.push("permissions");
        names.push("result_formats");
        assert(names_of(names@) =~= contract_names());
        if let Err(e) = expect_exactly(fields, &names) {
            return Err(e);
        }
        proof {
            assert(dict_lookup(fields@, contract_names()[0]) is Some);
            assert(dict_lookup(fields@, contract_names()[1]) is Some);
        }
        let arithmetic = match arithmetic_in(fields.get("arithmetic").unwrap()) {
            Ok(arithmetic) => arithmetic,
            Err(e) => {
                return Err(e);
            },
        };
        let (permissions, assumptions) = match parts_in(fields) {
            Ok(parts) => parts,
            Err(e) => {
                return Err(e);
            },
        };
        let result_formats = match formats_in(fields) {
            Ok(formats) => formats,
            Err(e) => {
                return Err(e);
            },
        };
        let intermediate_exceptions = match exceptions_in(fields) {
            Ok(exceptions) => exceptions,
            Err(e) => {
                return Err(e);
            },
        };
        let permissions = match permissions_in(permissions) {
            Ok(permissions) => permissions,
            Err(e) => {
                return Err(e);
            },
        };
        let finite = match bool_in(assumptions, "finite") {
            Ok(finite) => finite,
            Err(e) => {
                return Err(e);
            },
        };
        let accuracy = match accuracy_in(fields.get("accuracy").unwrap()) {
            Ok(accuracy) => accuracy,
            Err(e) => {
                return Err(e);
            },
        };
        let environment_epoch: u64 = match number_in(fields, "environment_epoch") {
            Ok(n) => n,
            Err(e) => {
                return Err(e);
            },
        };
        Ok(
            EvaluationContract {
                arithmetic,
                permissions,
                assumptions: ScopedFacts { finite },
                accuracy,
                result_formats,
                environment_epoch,
                intermediate_exceptions,
            },
        )
    }

    /// Whether computing the reference is an admissible evaluation.
    pub fn reference_is_admissible(&self) -> (r: bool)
        ensures
            r == (self@.accuracy is Reference),
    {
        match self.accuracy {
            AccuracyRequirement::Reference => true,
            _ => false,
        }
    }
}

/// The attribute an accuracy requirement is carried as.
pub open spec fn accuracy_attr(accuracy: AccuracyView) -> AttrView {
    AttrView::Dict(
        match accuracy {
            AccuracyView::Reference => seq![("kind"@, AttrView::Str("reference"@))],
            AccuracyView::CorrectlyRounded => seq![
                ("kind"@, AttrView::Str("correctly_rounded"@)),
            ],
            AccuracyView::ApprovedAlgorithms(names) => seq![
                (
                    "algorithms"@,
                    AttrView::Array(names.map_values(|n: Seq<char>| AttrView::Str(n))),
                ),
                ("kind"@, AttrView::Str("approved_algorithms"@)),
            ],
            AccuracyView::Bounded(b) => seq![
                ("exceptional"@, AttrView::Str(b.exceptional)),
                ("finite_domain"@, AttrView::Str(b.finite_domain)),
                ("kind"@, AttrView::Str("bounded"@)),
                ("maximum_bits"@, AttrView::UInt(b.maximum_bits)),
                ("metric"@, AttrView::Str(b.metric)),
                ("reference"@, AttrView::Str(b.reference)),
                ("subnormal"@, AttrView::Str(b.subnormal)),
                ("zero"@, AttrView::Str(b.zero)),
            ],
        },
    )
}

/// The attribute the allowed transforms are carried as.
pub open spec fn permissions_attr(p: TransformPermissions) -> AttrView {
    AttrView::Dict(
        seq![
            ("approved_approximation"@, AttrView::Bool(p.approved_approximation)),
            ("cross_statement_contraction"@, AttrView::Bool(p.cross_statement_contraction)),
            ("expression_contraction"@, AttrView::Bool(p.expression_contraction)),
            ("ignore_signed_zero"@, AttrView::Bool(p.ignore_signed_zero)),
            ("reassociation"@, AttrView::Bool(p.reassociation)),
            ("reciprocal"@, AttrView::Bool(p.reciprocal)),
        ],
    )
}

/// How it is written what becomes of exceptions.
pub open spec fn exceptions_text(x: IntermediateExceptions) -> Seq<char> {
    match x {
        IntermediateExceptions::Preserve => "preserve"@,
        IntermediateExceptions::AllowContractedGroupRemoval => "allow_contracted_group_removal"@,
    }
}

/// The entries that the first `n` of `pairs` are carried as, the last of a name
/// standing.
pub open spec fn properties_of(pairs: Seq<(Seq<char>, Seq<char>)>, n: int) -> Fields
    decreases n,
{
    if n <= 0 {
        Seq::empty()
    } else {
        with_entry(properties_of(pairs, n - 1), pairs[n - 1].0, AttrView::Str(pairs[n - 1].1))
    }
}

/// The attribute a contract is carried as.
pub open spec fn contract_attr(c: ContractView) -> AttrView {
    AttrView::Dict(
        seq![
            ("accuracy"@, accuracy_attr(c.accuracy)),
            (
                "arithmetic"@,
                AttrView::Dict(properties_of(c.arithmetic, c.arithmetic.len() as int)),
            ),
            (
                "assumptions"@,
                AttrView::Dict(seq![("finite"@, AttrView::Bool(c.assumptions.finite))]),
            ),
            ("environment_epoch"@, AttrView::UInt(c.environment_epoch)),
            (
                "intermediate_exceptions"@,
                AttrView::Str(exceptions_text(c.intermediate_exceptions)),
            ),
            ("permissions"@, permissions_attr(c.permissions)),
            ("result_formats"@, types_attr_view(c.result_formats)),
        ],
    )
}

fn entry(key: &'static str, value: AttributeValue) -> (e: DictEntry)
    ensures
        entry_view(e) == (key@, value@),
{
    DictEntry { key: key.to_owned(), value }
}

fn text_entry(key: &'static str, text: &str) -> (e: DictEntry)
    ensures
        entry_view(e) == (key@, AttrView::Str(text@)),
{
    entry(key, AttributeValue::Str(text.to_owned()))
}

fn dict_from(entries: Vec<DictEntry>) -> (r: AttributeValue)
    requires
        rises(entry_views(entries@)),
    ensures
        r@ == AttrView::Dict(entry_views(entries@)),
{
    AttributeValue::Dict(AttributeDict::from_sorted(entries))
}

proof fn accuracy_keys_rise(accuracy: AccuracyView)
    ensures
        rises(accuracy_attr(accuracy)->Dict_0),
{
    reveal_strlit("algorithms");
    reveal_strlit("exceptional");
    reveal_strlit("finite_domain");
    reveal_strlit("kind");
    reveal_strlit("maximum_bits");
    reveal_strlit("metric");
    reveal_strlit("reference");
    reveal_strlit("subnormal");
    reveal_strlit("zero");
    reveal_with_fuel(text_less, 3);
    assert(text_less("maximum_bits"@, "metric"@));
    neighbours_make_order(accuracy_attr(accuracy)->Dict_0);
}

proof fn permission_keys_rise(p: TransformPermissions)
    ensures
        rises(permissions_attr(p)->Dict_0),
{
    reveal_strlit("approved_approximation");
    reveal_strlit("cross_statement_contraction");
    reveal_strlit("expression_contraction");
    reveal_strlit("ignore_signed_zero");
    reveal_strlit("reassociation");
    reveal_strlit("reciprocal");
    reveal_with_fuel(text_less, 4);
    assert(text_less("reassociation"@, "reciprocal"@));
    neighbours_make_order(permissions_attr(p)->Dict_0);
}

proof fn contract_keys_rise(c: ContractView)
    ensures
        rises(contract_attr(c)->Dict_0),
{
    reveal_strlit("accuracy");
    reveal_strlit("arithmetic");
    reveal_strlit("assumptions");
    reveal_strlit("environment_epoch");
    reveal_strlit("intermediate_exceptions");
    reveal_strlit("permissions");
    reveal_strlit("result_formats");
    reveal_with_fuel(text_less, 3);
    assert(text_less("accuracy"@, "arithmetic"@));
    assert(text_less("arithmetic"@, "assumptions"@));
    neighbours_make_order(contract_attr(c)->Dict_0);
}

impl AccuracyRequirement {
    /// The attribute the requirement is carried as.
    pub fn attribute(&self) -> (r: AttributeValue)
        ensures
            r@ == accuracy_attr(self@),
    {
        let mut entries: Vec<DictEntry> = Vec::new();
        match self {
            AccuracyRequirement::Reference => {
                entries.push(text_entry("kind", "reference"));
            },
            AccuracyRequirement::CorrectlyRounded => {
                entries.push(text_entry("kind", "correctly_rounded"));
            },
            AccuracyRequirement::ApprovedAlgorithms(names) => {
                let mut items: Vec<AttributeValue> = Vec::new();
                let mut i: usize = 0;
                while i < names.len()
                    invariant
                        i <= names.len(),
                        items.len() == i,
                        forall|k: int|
                            0 <= k < i ==> attr_view(#[trigger] items@[k]) == AttrView::Str(
                                names@[k]@,
                            ),
                    decreases names.len() - i,
                {
                    items.push(AttributeValue::Str(names[i].clone()));
                    i += 1;
                }
                let list = AttributeValue::Array(items);
                assert(attr_view(list)->Array_0 =~= strings_of(names@).map_values(
                    |n: Seq<char>| AttrView::Str(n),
                ));
                entries.push(entry("algorithms", list));
                entries.push(text_entry("kind", "approved_algorithms"));
            },
            AccuracyRequirement::Bounded(b) => {
                entries.push(text_entry("exceptional", b.exceptional.as_str()));
                entries.push(text_entry("finite_domain", b.finite_domain.as_str()));
                entries.push(text_entry("kind", "bounded"));
                entries.push(entry("maximum_bits", AttributeValue::UInt(b.maximum_bits)));
                entries.push(text_entry("metric", b.metric.as_str()));
                entries.push(text_entry("reference", b.reference.as_str()));
                entries.push(text_entry("subnormal", b.subnormal.as_str()));
                entries.push(text_entry("zero", b.zero.as_str()));
            },
        }
        proof {
            assert(entry_views(entries@) =~= accuracy_attr(self@)->Dict_0);
            accuracy_keys_rise(self@);
        }
        dict_from(entries)
    }
}

impl TransformPermissions {
    /// The attribute the permissions are carried as.
    pub fn attribute(&self) -> (r: AttributeValue)
        ensures
            r@ == permissions_attr(*self),
    {
        let mut entries: Vec<DictEntry> = Vec::new();
        entries.push(
            entry("approved_approximation", AttributeValue::Bool(self.approved_approximation)),
        );
        entries.push(
            entry(
                "cross_statement_contraction",
                AttributeValue::Bool(self.cross_statement_contraction),
            ),
        );
        entries.push(
            entry("expression_contraction", AttributeValue::Bool(self.expression_contraction)),
        );
        entries.push(entry("ignore_signed_zero", AttributeValue::Bool(self.ignore_signed_zero)));
        entries.push(entry("reassociation", AttributeValue::Bool(self.reassociation)));
        entries.push(entry("reciprocal", AttributeValue::Bool(self.reciprocal)));
        proof {
            assert(entry_views(entries@) =~= permissions_attr(*self)->Dict_0);
            permission_keys_rise(*self);
        }
        dict_from(entries)
    }
}

impl EvaluationContract {
    /// The attribute the contract is carried as.
    pub fn attribute(&self) -> (r: AttributeValue)
        ensures
            r@ == contract_attr(self@),
    {
        let mut properties = AttributeDict::new();
        let mut i: usize = 0;
        while i < self.arithmetic.fields.len()
            invariant
                i <= self.arithmetic.fields.len(),
                properties@ == properties_of(self@.arithmetic, i as int),
            decreases self.arithmetic.fields.len() - i,
        {
            properties = properties.with(
                self.arithmetic.fields[i].0.as_str(),
                AttributeValue::Str(self.arithmetic.fields[i].1.clone()),
            );
            i += 1;
        }
        let mut facts: Vec<DictEntry> = Vec::new();
        facts.push(entry("finite", AttributeValue::Bool(self.assumptions.finite)));
        assert(entry_views(facts@) =~= seq![("finite"@, AttrView::Bool(self.assumptions.finite))]);
        let exceptions = match self.intermediate_exceptions {
            IntermediateExceptions::Preserve => "preserve",
            IntermediateExceptions::AllowContractedGroupRemoval =>
                "allow_contracted_group_removal",
        };
        let mut entries: Vec<DictEntry> = Vec::new();
        entries.push(entry("accuracy", self.accuracy.attribute()));
        entries.push(entry("arithmetic", AttributeValue::Dict(properties)));
        entries.push(entry("assumptions", dict_from(facts)));
        entries.push(entry("environment_epoch", AttributeValue::UInt(self.environment_epoch)));
        entries.push(text_entry("intermediate_exceptions", exceptions));
        entries.push(entry("permissions", self.permissions.attribute()));
        entries.push(entry("result_formats", types_attr(&self.result_formats)));
        proof {
            assert(entry_views(entries@) =~= contract_attr(self@)->Dict_0);
            contract_keys_rise(self@);
        }
        dict_from(entries)
    }
}

/// An entry is found under its key where no entry before it has that key.
pub proof fn entry_is_found(fields: Fields, i: int)
    requires
        0 <= i < fields.len(),
        forall|j: int| 0 <= j < i ==> (#[trigger] fields[j]).0 != fields[i].0,
    ensures
        dict_lookup(fields, fields[i].0) == Some(fields[i].1),
    decreases i,
{
    if i > 0 {
        let rest = fields.skip(1);
        assert(fields[0].0 != fields[i].0);
        assert forall|j: int| 0 <= j < i - 1 implies (#[trigger] rest[j]).0 != rest[i - 1].0 by {
            assert(rest[j] == fields[j + 1]);
            assert(rest[i - 1] == fields[i]);
        }
        entry_is_found(rest, i - 1);
        assert(rest[i - 1] == fields[i]);
    }
}

/// Every entry of a dictionary whose keys are distinct is found under its key.
proof fn entries_are_found(fields: Fields)
    requires
        forall|i: int, j: int|
            0 <= i < j < fields.len() ==> (#[trigger] fields[i]).0 != (#[trigger] fields[j]).0,
    ensures
        forall|i: int|
            0 <= i < fields.len() ==> dict_lookup(fields, (#[trigger] fields[i]).0) == Some(
                fields[i].1,
            ),
{
    assert forall|i: int| 0 <= i < fields.len() implies dict_lookup(
        fields,
        (#[trigger] fields[i]).0,
    ) == Some(fields[i].1) by {
        entry_is_found(fields, i);
    }
}

proof fn accuracy_is_read_back(accuracy: AccuracyView)
    ensures
        accuracy_of(accuracy_attr(accuracy)) == Ok::<AccuracyView, Seq<char>>(accuracy),
{
    reveal_strlit("kind");
    reveal_strlit("reference");
    reveal_strlit("correctly_rounded");
    reveal_strlit("approved_algorithms");
    reveal_strlit("bounded");
    let fields = accuracy_attr(accuracy)->Dict_0;
    match accuracy {
        AccuracyView::Reference => {
            entry_is_found(fields, 0);
            assert(exactly(fields, seq!["kind"@]));
        },
        AccuracyView::CorrectlyRounded => {
            entry_is_found(fields, 0);
            assert("reference"@.len() != "correctly_rounded"@.len());
            assert(exactly(fields, seq!["kind"@]));
        },
        AccuracyView::ApprovedAlgorithms(names) => {
            reveal_strlit("algorithms");
            assert("algorithms"@.len() != "kind"@.len());
            entries_are_found(fields);
            assert(fields[0].0 == "algorithms"@ && fields[1].0 == "kind"@);
            assert("reference"@.len() != "approved_algorithms"@.len());
            assert("correctly_rounded"@.len() != "approved_algorithms"@.len());
            assert(exactly(fields, seq!["algorithms"@, "kind"@])) by {
                let want = seq!["algorithms"@, "kind"@];
                assert forall|i: int| 0 <= i < want.len() implies dict_lookup(
                    fields,
                    #[trigger] want[i],
                ) is Some by {
                    assert(fields[i].0 == want[i]);
                }
            }
            let items = names.map_values(|n: Seq<char>| AttrView::Str(n));
            assert(items.map_values(|item: AttrView| item->Str_0) =~= names);
        },
        AccuracyView::Bounded(b) => {
            reveal_strlit("exceptional");
            reveal_strlit("finite_domain");
            reveal_strlit("maximum_bits");
            reveal_strlit("metric");
            reveal_strlit("subnormal");
            reveal_strlit("zero");
            assert("kind"@[0] != "zero"@[0]);
            assert("reference"@[0] != "subnormal"@[0]);
            assert("reference"@.len() != "bounded"@.len());
            assert("correctly_rounded"@.len() != "bounded"@.len());
            assert("approved_algorithms"@.len() != "bounded"@.len());
            bound_keys_differ(b);
            entries_are_found(fields);
            let want = bound_names();
            assert forall|i: int| 0 <= i < want.len() implies (#[trigger] want[i]) == fields[i].0
                && dict_lookup(fields, want[i]) == Some(fields[i].1) by {
                assert(fields[i].0 == want[i]);
            }
            assert(exactly(fields, want));
            assert(want[0] == "exceptional"@ && want[1] == "finite_domain"@ && want[2] == "kind"@
                && want[3] == "maximum_bits"@ && want[4] == "metric"@ && want[5] == "reference"@
                && want[6] == "subnormal"@ && want[7] == "zero"@);
        },
    }
}

proof fn bound_keys_differ(b: BoundView)
    ensures
        ({
            let fields = accuracy_attr(AccuracyView::Bounded(b))->Dict_0;
            forall|i: int, j: int|
                0 <= i < j < fields.len() ==> (#[trigger] fields[i]).0 != (#[trigger] fields[j]).0
        }),
{
    reveal_strlit("kind");
    reveal_strlit("reference");
    reveal_strlit("exceptional");
    reveal_strlit("finite_domain");
    reveal_strlit("maximum_bits");
    reveal_strlit("metric");
    reveal_strlit("subnormal");
    reveal_strlit("zero");
    let fields = accuracy_attr(AccuracyView::Bounded(b))->Dict_0;
    assert forall|i: int, j: int| 0 <= i < j < fields.len() implies (#[trigger] fields[i]).0 != (
    #[trigger] fields[j]).0 by {
        let x = fields[i].0;
        let y = fields[j].0;
        assert(x.len() != y.len() || x[0] != y[0]);
    }
}

proof fn permissions_are_read_back(p: TransformPermissions)
    ensures
        permissions_of(permissions_attr(p)->Dict_0) == Ok::<TransformPermissions, Seq<char>>(p),
        exactly(permissions_attr(p)->Dict_0, permission_names()),
{
    reveal_strlit("approved_approximation");
    reveal_strlit("cross_statement_contraction");
    reveal_strlit("expression_contraction");
    reveal_strlit("ignore_signed_zero");
    reveal_strlit("reassociation");
    reveal_strlit("reciprocal");
    let fields = permissions_attr(p)->Dict_0;
    assert forall|i: int, j: int| 0 <= i < j < fields.len() implies (#[trigger] fields[i]).0 != (
    #[trigger] fields[j]).0 by {
        let x = fields[i].0;
        let y = fields[j].0;
        assert(x.len() != y.len() || x[0] != y[0]);
    }
    entries_are_found(fields);
    let want = permission_names();
    assert forall|i: int| 0 <= i < want.len() implies (#[trigger] want[i]) == fields[i].0
        && dict_lookup(fields, want[i]) == Some(fields[i].1) by {
        assert(fields[i].0 == want[i]);
    }
    assert(want[0] == "approved_approximation"@ && want[1] == "cross_statement_contraction"@
        && want[2] == "expression_contraction"@ && want[3] == "ignore_signed_zero"@ && want[4]
        == "reassociation"@ && want[5] == "reciprocal"@);
}

proof fn properties_keep_their_order(pairs: Seq<(Seq<char>, Seq<char>)>, n: int)
    requires
        0 <= n <= pairs.len(),
        forall|i: int, j: int|
            0 <= i < j < pairs.len() ==> text_less(
                (#[trigger] pairs[i]).0,
                (#[trigger] pairs[j]).0,
            ),
    ensures
        properties_of(pairs, n) == pairs.take(n).map_values(
            |p: (Seq<char>, Seq<char>)| (p.0, AttrView::Str(p.1)),
        ),
    decreases n,
{
    let carried = |p: (Seq<char>, Seq<char>)| (p.0, AttrView::Str(p.1));
    if n > 0 {
        properties_keep_their_order(pairs, n - 1);
        let before = pairs.take(n - 1).map_values(carried);
        let last = (pairs[n - 1].0, AttrView::Str(pairs[n - 1].1));
        let all = before.push(last);
        assert forall|i: int, j: int| 0 <= i < j < all.len() implies text_less(
            (#[trigger] all[i]).0,
            (#[trigger] all[j]).0,
        ) by {
            assert(all[i].0 == pairs[i].0 && all[j].0 == pairs[j].0);
        }
        last_entry_is_appended(before, last.0, last.1);
        assert(all =~= pairs.take(n).map_values(carried));
    } else {
        assert(properties_of(pairs, n) =~= pairs.take(n).map_values(carried));
    }
}

/// Reading a contract back from the attribute it is carried as gives the same
/// contract, where its arithmetic names a mode and its properties are in the order
/// of their names.
pub proof fn carried_contract_is_read_back(c: ContractView)
    requires
        forall|i: int, j: int|
            0 <= i < j < c.arithmetic.len() ==> text_less(
                (#[trigger] c.arithmetic[i]).0,
                (#[trigger] c.arithmetic[j]).0,
            ),
        exists|i: int|
            0 <= i < c.arithmetic.len() && ((#[trigger] c.arithmetic[i]).0 == "rounding"@
                || c.arithmetic[i].0 == "exceptions"@),
    ensures
        contract_of(contract_attr(c)) == Ok::<ContractView, Seq<char>>(c),
{
    reveal_strlit("accuracy");
    reveal_strlit("arithmetic");
    reveal_strlit("assumptions");
    reveal_strlit("environment_epoch");
    reveal_strlit("intermediate_exceptions");
    reveal_strlit("permissions");
    reveal_strlit("result_formats");
    reveal_strlit("preserve");
    reveal_strlit("allow_contracted_group_removal");
    let fields = contract_attr(c)->Dict_0;
    assert forall|i: int, j: int| 0 <= i < j < fields.len() implies (#[trigger] fields[i]).0 != (
    #[trigger] fields[j]).0 by {
        let x = fields[i].0;
        let y = fields[j].0;
        assert(x.len() != y.len() || x[0] != y[0]);
    }
    entries_are_found(fields);
    let want = contract_names();
    assert forall|i: int| 0 <= i < want.len() implies (#[trigger] want[i]) == fields[i].0
        && dict_lookup(fields, want[i]) == Some(fields[i].1) by {
        assert(fields[i].0 == want[i]);
    }
    assert(want[0] == "accuracy"@ && want[1] == "arithmetic"@ && want[2] == "assumptions"@ && want[3]
        == "environment_epoch"@ && want[4] == "intermediate_exceptions"@ && want[5]
        == "permissions"@ && want[6] == "result_formats"@);
    assert(exactly(fields, want));
    accuracy_is_read_back(c.accuracy);
    permissions_are_read_back(c.permissions);
    let properties = c.arithmetic.map_values(
        |p: (Seq<char>, Seq<char>)| (p.0, AttrView::Str(p.1)),
    );
    properties_keep_their_order(c.arithmetic, c.arithmetic.len() as int);
    assert(c.arithmetic.take(c.arithmetic.len() as int) =~= c.arithmetic);
    assert forall|i: int, j: int| 0 <= i < j < properties.len() implies (
    #[trigger] properties[i]).0 != (#[trigger] properties[j]).0 by {
        text_order_is_total(c.arithmetic[i].0, c.arithmetic[j].0);
    }
    entries_are_found(properties);
    assert(names_a_mode(properties)) by {
        let i = choose|i: int|
            0 <= i < c.arithmetic.len() && ((#[trigger] c.arithmetic[i]).0 == "rounding"@
                || c.arithmetic[i].0 == "exceptions"@);
        assert(properties[i].0 == c.arithmetic[i].0);
    }
    assert(all_strings(properties));
    assert(properties.map_values(|f: (Seq<char>, AttrView)| (f.0, f.1->Str_0)) =~= c.arithmetic);
    let facts: Fields = seq![("finite"@, AttrView::Bool(c.assumptions.finite))];
    entry_is_found(facts, 0);
    assert(exactly(facts, seq!["finite"@]));
    let formats = types_attr_view(c.result_formats)->Array_0;
    assert(type_entries(formats));
    assert(formats.map_values(|item: AttrView| item->Type_0) =~= c.result_formats);
    assert("preserve"@.len() != "allow_contracted_group_removal"@.len());
}

} // verus!

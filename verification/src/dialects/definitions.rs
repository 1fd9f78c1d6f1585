//! What the operations of the dialects are declared as.
use vstd::prelude::*;
use crate::attributes::Predicate;
use crate::schema::AttrSchema;
use crate::schema::AttrSchemaView;
use crate::schema::Constraint;
use crate::schema::FieldSchema;
use crate::schema::FieldView;
use crate::schema::OpDefSpec;
use crate::schema::OpDefView;
use crate::schema::OpSchema;
use crate::schema::RegionKind;
use crate::text::same;

verus! {

/// Whether a declaration may stand for any number of values.
pub open spec fn any_number(ty: Seq<char>) -> bool {
    ty.len() > 0 && ty[0] == '*'
}

/// The predicates an integer comparison may be.
pub open spec fn integer_predicates() -> Seq<Predicate> {
    seq![
        Predicate::Eq,
        Predicate::Ne,
        Predicate::Slt,
        Predicate::Sle,
        Predicate::Sgt,
        Predicate::Sge,
        Predicate::Ult,
        Predicate::Ule,
        Predicate::Ugt,
        Predicate::Uge,
    ]
}

impl OpDefView {
    /// A declaration of nothing yet.
    pub open spec fn nothing() -> Self {
        OpDefView {
            operands: Seq::empty(),
            results: Seq::empty(),
            attributes: Seq::empty(),
            operand_checkers: Seq::empty(),
            result_checkers: Seq::empty(),
            region_kinds: Seq::empty(),
            same_type: false,
        }
    }

    pub open spec fn with_operand(
        self,
        name: Seq<char>,
        ty: Seq<char>,
        constraint: Constraint,
    ) -> Self {
        OpDefView {
            operands: self.operands.push(FieldView { name, ty, variadic: any_number(ty) }),
            operand_checkers: self.operand_checkers.push(constraint),
            ..self
        }
    }

    pub open spec fn with_result(
        self,
        name: Seq<char>,
        ty: Seq<char>,
        constraint: Constraint,
    ) -> Self {
        OpDefView {
            results: self.results.push(FieldView { name, ty, variadic: any_number(ty) }),
            result_checkers: self.result_checkers.push(constraint),
            ..self
        }
    }

    pub open spec fn with_attribute(self, name: Seq<char>, ty: Seq<char>) -> Self {
        OpDefView {
            attributes: self.attributes.push(
                AttrSchemaView { name, ty, vocabulary: Seq::empty() },
            ),
            ..self
        }
    }

    pub open spec fn with_predicate(self, name: Seq<char>) -> Self {
        OpDefView {
            attributes: self.attributes.push(
                AttrSchemaView { name, ty: "Predicate"@, vocabulary: integer_predicates() },
            ),
            ..self
        }
    }

    pub open spec fn with_region(self, kind: RegionKind) -> Self {
        OpDefView { region_kinds: self.region_kinds.push(kind), ..self }
    }

    pub open spec fn of_one_type(self) -> Self {
        OpDefView { same_type: true, ..self }
    }
}

fn stands_for_any(ty: &str) -> (r: bool)
    ensures
        r == any_number(ty@),
{
    ty.unicode_len() > 0 && ty.get_char(0) == '*'
}

impl OpDefSpec {
    /// A declaration of nothing yet.
    pub fn nothing() -> (r: Self)
        ensures
            r@ == OpDefView::nothing(),
            r@.wf(),
    {
        let r = OpDefSpec {
            schema: OpSchema {
                operands: Vec::new(),
                results: Vec::new(),
                attributes: Vec::new(),
            },
            operand_checkers: Vec::new(),
            result_checkers: Vec::new(),
            region_kinds: Vec::new(),
            same_type: false,
        };
        assert(r@.operands =~= Seq::empty());
        assert(r@.results =~= Seq::empty());
        assert(r@.attributes =~= Seq::empty());
        r
    }

    /// With one more operand.
    pub fn operand(self, name: &'static str, ty: &'static str, constraint: Constraint) -> (r: Self)
        ensures
            r@ == self@.with_operand(name@, ty@, constraint),
            self@.wf() ==> r@.wf(),
    {
        let ghost before = self@;
        let mut r = self;
        r.schema.operands.push(FieldSchema { name, ty, variadic: stands_for_any(ty) });
        r.operand_checkers.push(constraint);
        assert(r@.operands =~= before.with_operand(name@, ty@, constraint).operands);
        r
    }

    /// With one more result.
    pub fn result(self, name: &'static str, ty: &'static str, constraint: Constraint) -> (r: Self)
        ensures
            r@ == self@.with_result(name@, ty@, constraint),
            self@.wf() ==> r@.wf(),
    {
        let ghost before = self@;
        let mut r = self;
        r.schema.results.push(FieldSchema { name, ty, variadic: stands_for_any(ty) });
        r.result_checkers.push(constraint);
        assert(r@.results =~= before.with_result(name@, ty@, constraint).results);
        r
    }

    /// With one more attribute.
    pub fn attribute(self, name: &'static str, ty: &'static str) -> (r: Self)
        ensures
            r@ == self@.with_attribute(name@, ty@),
            self@.wf() ==> r@.wf(),
    {
        let ghost before = self@;
        let mut r = self;
        let added = AttrSchema { name, ty, vocabulary: Vec::new() };
        assert(added@.vocabulary =~= Seq::empty());
        r.schema.attributes.push(added);
        assert(r@.attributes =~= before.with_attribute(name@, ty@).attributes);
        r
    }

    /// With one more attribute, which is a predicate on integers.
    pub fn predicate(self, name: &'static str) -> (r: Self)
        ensures
            r@ == self@.with_predicate(name@),
            self@.wf() ==> r@.wf(),
    {
        let ghost before = self@;
        let mut r = self;
        let vocabulary: Vec<Predicate> = vec![
            Predicate::Eq,
            Predicate::Ne,
            Predicate::Slt,
            Predicate::Sle,
            Predicate::Sgt,
            Predicate::Sge,
            Predicate::Ult,
            Predicate::Ule,
            Predicate::Ugt,
            Predicate::Uge,
        ];
        assert(vocabulary@ =~= integer_predicates());
        r.schema.attributes.push(AttrSchema { name, ty: "Predicate", vocabulary });
        assert(r@.attributes =~= before.with_predicate(name@).attributes);
        r
    }

    /// With one more region.
    pub fn region(self, kind: RegionKind) -> (r: Self)
        ensures
            r@ == self@.with_region(kind),
            self@.wf() ==> r@.wf(),
    {
        let mut r = self;
        r.region_kinds.push(kind);
        r
    }

    /// With one type for all it takes and gives.
    pub fn one_type(self) -> (r: Self)
        ensures
            r@ == self@.of_one_type(),
            self@.wf() ==> r@.wf(),
    {
        let mut r = self;
        r.same_type = true;
        r
    }
}

/// Whether a declaration that was found is the one meant.
pub open spec fn declares(r: Option<OpDefSpec>, expected: Option<OpDefView>) -> bool {
    match r {
        Some(def) => expected == Some(def@) && def@.wf(),
        None => expected is None,
    }
}

/// What the operation `name` of the `builtin` dialect is declared as.
pub open spec fn builtin_definition(name: Seq<char>) -> Option<OpDefView> {
    if name == "constant"@ {
        Some(
            OpDefView::nothing()
                .with_result("result"@, "crate::builtin::IntegerType"@, Constraint::Integer)
                .with_attribute("value"@, "Int"@),
        )
    } else if name == "addi"@
        || name == "subi"@
        || name == "muli"@
        || name == "divsi"@
        || name == "divui"@
        || name == "remsi"@
        || name == "remui"@
        || name == "andi"@
        || name == "ori"@
        || name == "xori"@
        || name == "shli"@
        || name == "shrui"@
        || name == "shrsi"@
    {
        Some(
            OpDefView::nothing()
                .with_operand("lhs"@, "crate::builtin::IntegerType"@, Constraint::Integer)
                .with_operand("rhs"@, "crate::builtin::IntegerType"@, Constraint::Integer)
                .with_result("result"@, "crate::builtin::IntegerType"@, Constraint::Integer)
                .of_one_type(),
        )
    } else if name == "cmpi"@ {
        Some(
            OpDefView::nothing()
                .with_operand("lhs"@, "crate::builtin::IntegerType"@, Constraint::Integer)
                .with_operand("rhs"@, "crate::builtin::IntegerType"@, Constraint::Integer)
                .with_result("result"@, "crate::Integer<1>"@, Constraint::IntegerOf(1))
                .with_predicate("predicate"@),
        )
    } else if name == "extsi"@ || name == "extui"@ || name == "trunci"@ {
        Some(
            OpDefView::nothing()
                .with_operand("input"@, "crate::builtin::IntegerType"@, Constraint::Integer)
                .with_result("result"@, "crate::builtin::IntegerType"@, Constraint::Integer),
        )
    } else if name == "bitcast"@ {
        Some(
            OpDefView::nothing()
                .with_operand("input"@, "Any"@, Constraint::Any)
                .with_result("result"@, "Any"@, Constraint::Any),
        )
    } else if name == "call"@ {
        Some(
            OpDefView::nothing()
                .with_operand("args"@, "*Any"@, Constraint::Any)
                .with_result("result"@, "Any"@, Constraint::Any)
                .with_attribute("callee"@, "Str"@),
        )
    } else if name == "indirect_call"@ {
        Some(
            OpDefView::nothing()
                .with_operand("callee"@, "Any"@, Constraint::Any)
                .with_operand("args"@, "*Any"@, Constraint::Any)
                .with_result("result"@, "Any"@, Constraint::Any),
        )
    } else if name == "br"@ {
        Some(
            OpDefView::nothing()
                .with_operand("dest_args"@, "*Any"@, Constraint::Any)
                .with_attribute("dest"@, "Block"@),
        )
    } else if name == "cond_br"@ {
        Some(
            OpDefView::nothing()
                .with_operand("condition"@, "crate::Integer<1>"@, Constraint::IntegerOf(1))
                .with_operand("true_args"@, "*Any"@, Constraint::Any)
                .with_operand("false_args"@, "*Any"@, Constraint::Any)
                .with_attribute("true_dest"@, "Block"@)
                .with_attribute("false_dest"@, "Block"@),
        )
    } else if name == "declare"@ {
        Some(
            OpDefView::nothing()
                .with_attribute("sym_name"@, "Str"@)
                .with_attribute("ret_type"@, "Type"@)
                .with_attribute("arg_types"@, "Array"@),
        )
    } else if name == "addr_of"@ || name == "global"@ || name == "sym_addr"@ {
        Some(
            OpDefView::nothing()
                .with_result("result"@, "crate::ptr::PtrType"@, Constraint::Ptr)
                .with_attribute("sym_name"@, "Str"@),
        )
    } else if name == "constantf"@ {
        Some(
            OpDefView::nothing()
                .with_result("result"@, "crate::builtin::FloatType"@, Constraint::Float)
                .with_attribute("value"@, "F64"@),
        )
    } else if name == "sitofp"@ || name == "uitofp"@ {
        Some(
            OpDefView::nothing()
                .with_operand("input"@, "crate::builtin::IntegerType"@, Constraint::Integer)
                .with_result("result"@, "crate::builtin::FloatType"@, Constraint::Float),
        )
    } else if name == "cmpf"@ {
        Some(
            OpDefView::nothing()
                .with_operand("lhs"@, "crate::builtin::FloatType"@, Constraint::Float)
                .with_operand("rhs"@, "crate::builtin::FloatType"@, Constraint::Float)
                .with_result("result"@, "crate::Integer<1>"@, Constraint::IntegerOf(1))
                .with_attribute("predicate"@, "Str"@),
        )
    } else if name == "fptosi"@ || name == "fptoui"@ {
        Some(
            OpDefView::nothing()
                .with_operand("input"@, "crate::builtin::FloatType"@, Constraint::Float)
                .with_result("result"@, "crate::builtin::IntegerType"@, Constraint::Integer),
        )
    } else if name == "addf"@ || name == "subf"@ || name == "mulf"@ || name == "divf"@ {
        Some(
            OpDefView::nothing()
                .with_operand("lhs"@, "crate::builtin::FloatType"@, Constraint::Float)
                .with_operand("rhs"@, "crate::builtin::FloatType"@, Constraint::Float)
                .with_result("result"@, "crate::builtin::FloatType"@, Constraint::Float)
                .of_one_type(),
        )
    } else if name == "fn_to_ptr"@ {
        Some(
            OpDefView::nothing()
                .with_operand("callee"@, "crate::builtin::FnType"@, Constraint::Fn)
                .with_result("result"@, "crate::ptr::PtrType"@, Constraint::Ptr),
        )
    } else if name == "ptr_to_fn"@ {
        Some(
            OpDefView::nothing()
                .with_operand("address"@, "crate::ptr::PtrType"@, Constraint::Ptr)
                .with_result("result"@, "crate::builtin::FnType"@, Constraint::Fn),
        )
    } else if name == "func"@ {
        Some(
            OpDefView::nothing()
                .with_attribute("sym_name"@, "Str"@)
                .with_attribute("ret_type"@, "Type"@)
                .with_region(RegionKind::Blocks),
        )
    } else if name == "return"@ {
        Some(OpDefView::nothing().with_operand("value"@, "?Any"@, Constraint::Any))
    } else if name == "module"@ {
        Some(OpDefView::nothing().with_region(RegionKind::Blocks))
    } else if name == "module_end"@ {
        Some(OpDefView::nothing())
    } else if name == "make_tuple"@ {
        Some(
            OpDefView::nothing()
                .with_operand("elements"@, "*AnyConstraint"@, Constraint::Any)
                .with_result("result"@, "crate::builtin::TupleType"@, Constraint::Tuple),
        )
    } else if name == "tuple_get"@ {
        Some(
            OpDefView::nothing()
                .with_operand("tuple"@, "crate::builtin::TupleType"@, Constraint::Tuple)
                .with_result("result"@, "AnyConstraint"@, Constraint::Any)
                .with_attribute("index"@, "UInt"@),
        )
    } else {
        None
    }
}

fn builtin_definition_of(name: &str) -> (r: Option<OpDefSpec>)
    ensures
        declares(r, builtin_definition(name@)),
{
    if same(name, "constant") {
        Some(
            OpDefSpec::nothing()
                .result("result", "crate::builtin::IntegerType", Constraint::Integer)
                .attribute("value", "Int"),
        )
    } else if same(name, "addi")
        || same(name, "subi")
        || same(name, "muli")
        || same(name, "divsi")
        || same(name, "divui")
        || same(name, "remsi")
        || same(name, "remui")
        || same(name, "andi")
        || same(name, "ori")
        || same(name, "xori")
        || same(name, "shli")
        || same(name, "shrui")
        || same(name, "shrsi")
    {
        Some(
            OpDefSpec::nothing()
                .operand("lhs", "crate::builtin::IntegerType", Constraint::Integer)
                .operand("rhs", "crate::builtin::IntegerType", Constraint::Integer)
                .result("result", "crate::builtin::IntegerType", Constraint::Integer)
                .one_type(),
        )
    } else if same(name, "cmpi") {
        Some(
            OpDefSpec::nothing()
                .operand("lhs", "crate::builtin::IntegerType", Constraint::Integer)
                .operand("rhs", "crate::builtin::IntegerType", Constraint::Integer)
                .result("result", "crate::Integer<1>", Constraint::IntegerOf(1))
                .predicate("predicate"),
        )
    } else if same(name, "extsi") || same(name, "extui") || same(name, "trunci") {
        Some(
            OpDefSpec::nothing()
                .operand("input", "crate::builtin::IntegerType", Constraint::Integer)
                .result("result", "crate::builtin::IntegerType", Constraint::Integer),
        )
    } else if same(name, "bitcast") {
        Some(
            OpDefSpec::nothing()
                .operand("input", "Any", Constraint::Any)
                .result("result", "Any", Constraint::Any),
        )
    } else if same(name, "call") {
        Some(
            OpDefSpec::nothing()
                .operand("args", "*Any", Constraint::Any)
                .result("result", "Any", Constraint::Any)
                .attribute("callee", "Str"),
        )
    } else if same(name, "indirect_call") {
        Some(
            OpDefSpec::nothing()
                .operand("callee", "Any", Constraint::Any)
                .operand("args", "*Any", Constraint::Any)
                .result("result", "Any", Constraint::Any),
        )
    } else if same(name, "br") {
        Some(
            OpDefSpec::nothing()
                .operand("dest_args", "*Any", Constraint::Any)
                .attribute("dest", "Block"),
        )
    } else if same(name, "cond_br") {
        Some(
            OpDefSpec::nothing()
                .operand("condition", "crate::Integer<1>", Constraint::IntegerOf(1))
                .operand("true_args", "*Any", Constraint::Any)
                .operand("false_args", "*Any", Constraint::Any)
                .attribute("true_dest", "Block")
                .attribute("false_dest", "Block"),
        )
    } else if same(name, "declare") {
        Some(
            OpDefSpec::nothing()
                .attribute("sym_name", "Str")
                .attribute("ret_type", "Type")
                .attribute("arg_types", "Array"),
        )
    } else if same(name, "addr_of") || same(name, "global") || same(name, "sym_addr") {
        Some(
            OpDefSpec::nothing()
                .result("result", "crate::ptr::PtrType", Constraint::Ptr)
                .attribute("sym_name", "Str"),
        )
    } else if same(name, "constantf") {
        Some(
            OpDefSpec::nothing()
                .result("result", "crate::builtin::FloatType", Constraint::Float)
                .attribute("value", "F64"),
        )
    } else if same(name, "sitofp") || same(name, "uitofp") {
        Some(
            OpDefSpec::nothing()
                .operand("input", "crate::builtin::IntegerType", Constraint::Integer)
                .result("result", "crate::builtin::FloatType", Constraint::Float),
        )
    } else if same(name, "cmpf") {
        Some(
            OpDefSpec::nothing()
                .operand("lhs", "crate::builtin::FloatType", Constraint::Float)
                .operand("rhs", "crate::builtin::FloatType", Constraint::Float)
                .result("result", "crate::Integer<1>", Constraint::IntegerOf(1))
                .attribute("predicate", "Str"),
        )
    } else if same(name, "fptosi") || same(name, "fptoui") {
        Some(
            OpDefSpec::nothing()
                .operand("input", "crate::builtin::FloatType", Constraint::Float)
                .result("result", "crate::builtin::IntegerType", Constraint::Integer),
        )
    } else if same(name, "addf")
        || same(name, "subf")
        || same(name, "mulf")
        || same(name, "divf")
    {
        Some(
            OpDefSpec::nothing()
                .operand("lhs", "crate::builtin::FloatType", Constraint::Float)
                .operand("rhs", "crate::builtin::FloatType", Constraint::Float)
                .result("result", "crate::builtin::FloatType", Constraint::Float)
                .one_type(),
        )
    } else if same(name, "fn_to_ptr") {
        Some(
            OpDefSpec::nothing()
                .operand("callee", "crate::builtin::FnType", Constraint::Fn)
                .result("result", "crate::ptr::PtrType", Constraint::Ptr),
        )
    } else if same(name, "ptr_to_fn") {
        Some(
            OpDefSpec::nothing()
                .operand("address", "crate::ptr::PtrType", Constraint::Ptr)
                .result("result", "crate::builtin::FnType", Constraint::Fn),
        )
    } else if same(name, "func") {
        Some(
            OpDefSpec::nothing()
                .attribute("sym_name", "Str")
                .attribute("ret_type", "Type")
                .region(RegionKind::Blocks),
        )
    } else if same(name, "return") {
        Some(OpDefSpec::nothing().operand("value", "?Any", Constraint::Any))
    } else if same(name, "module") {
        Some(OpDefSpec::nothing().region(RegionKind::Blocks))
    } else if same(name, "module_end") {
        Some(OpDefSpec::nothing())
    } else if same(name, "make_tuple") {
        Some(
            OpDefSpec::nothing()
                .operand("elements", "*AnyConstraint", Constraint::Any)
                .result("result", "crate::builtin::TupleType", Constraint::Tuple),
        )
    } else if same(name, "tuple_get") {
        Some(
            OpDefSpec::nothing()
                .operand("tuple", "crate::builtin::TupleType", Constraint::Tuple)
                .result("result", "AnyConstraint", Constraint::Any)
                .attribute("index", "UInt"),
        )
    } else {
        None
    }
}

/// What the operation `name` of the `cfg` dialect is declared as.
pub open spec fn cfg_definition(name: Seq<char>) -> Option<OpDefView> {
    if name == "br"@ {
        Some(
            OpDefView::nothing()
                .with_operand("dest_args"@, "*Any"@, Constraint::Any)
                .with_attribute("dest"@, "Block"@),
        )
    } else if name == "cond_br"@ {
        Some(
            OpDefView::nothing()
                .with_operand("condition"@, "crate::Integer<1>"@, Constraint::IntegerOf(1))
                .with_operand("true_args"@, "*Any"@, Constraint::Any)
                .with_operand("false_args"@, "*Any"@, Constraint::Any)
                .with_attribute("true_dest"@, "Block"@)
                .with_attribute("false_dest"@, "Block"@),
        )
    } else {
        None
    }
}

fn cfg_definition_of(name: &str) -> (r: Option<OpDefSpec>)
    ensures
        declares(r, cfg_definition(name@)),
{
    if same(name, "br") {
        Some(
            OpDefSpec::nothing()
                .operand("dest_args", "*Any", Constraint::Any)
                .attribute("dest", "Block"),
        )
    } else if same(name, "cond_br") {
        Some(
            OpDefSpec::nothing()
                .operand("condition", "crate::Integer<1>", Constraint::IntegerOf(1))
                .operand("true_args", "*Any", Constraint::Any)
                .operand("false_args", "*Any", Constraint::Any)
                .attribute("true_dest", "Block")
                .attribute("false_dest", "Block"),
        )
    } else {
        None
    }
}

/// What the operation `name` of the `fp` dialect is declared as.
pub open spec fn fp_definition(name: Seq<char>) -> Option<OpDefView> {
    if name == "neg"@ || name == "abs"@ {
        Some(
            OpDefView::nothing()
                .with_operand("input"@, "crate::builtin::FloatType"@, Constraint::Float)
                .with_result("result"@, "crate::builtin::FloatType"@, Constraint::Float)
                .of_one_type(),
        )
    } else if name == "copysign"@ {
        Some(
            OpDefView::nothing()
                .with_operand("magnitude"@, "crate::builtin::FloatType"@, Constraint::Float)
                .with_operand("sign"@, "crate::builtin::FloatType"@, Constraint::Float)
                .with_result("result"@, "crate::builtin::FloatType"@, Constraint::Float)
                .of_one_type(),
        )
    } else if name == "signbit"@ {
        Some(
            OpDefView::nothing()
                .with_operand("input"@, "crate::builtin::FloatType"@, Constraint::Float)
                .with_result("result"@, "crate::Integer<1>"@, Constraint::IntegerOf(1)),
        )
    } else if name == "classify"@ {
        Some(
            OpDefView::nothing()
                .with_operand("input"@, "crate::builtin::FloatType"@, Constraint::Float)
                .with_result("result"@, "crate::Integer<1>"@, Constraint::IntegerOf(1))
                .with_attribute("class"@, "Str"@),
        )
    } else if name == "round"@ {
        Some(
            OpDefView::nothing()
                .with_operand("captures"@, "*tir::Any"@, Constraint::Any)
                .with_result("results"@, "*tir::Any"@, Constraint::Any)
                .with_attribute("contract"@, "any"@)
                .with_region(RegionKind::Nodes),
        )
    } else if name == "fence"@ {
        Some(
            OpDefView::nothing()
                .with_operand("input"@, "FloatType"@, Constraint::Float)
                .with_result("result"@, "FloatType"@, Constraint::Float)
                .of_one_type(),
        )
    } else {
        None
    }
}

fn fp_definition_of(name: &str) -> (r: Option<OpDefSpec>)
    ensures
        declares(r, fp_definition(name@)),
{
    if same(name, "neg") || same(name, "abs") {
        Some(
            OpDefSpec::nothing()
                .operand("input", "crate::builtin::FloatType", Constraint::Float)
                .result("result", "crate::builtin::FloatType", Constraint::Float)
                .one_type(),
        )
    } else if same(name, "copysign") {
        Some(
            OpDefSpec::nothing()
                .operand("magnitude", "crate::builtin::FloatType", Constraint::Float)
                .operand("sign", "crate::builtin::FloatType", Constraint::Float)
                .result("result", "crate::builtin::FloatType", Constraint::Float)
                .one_type(),
        )
    } else if same(name, "signbit") {
        Some(
            OpDefSpec::nothing()
                .operand("input", "crate::builtin::FloatType", Constraint::Float)
                .result("result", "crate::Integer<1>", Constraint::IntegerOf(1)),
        )
    } else if same(name, "classify") {
        Some(
            OpDefSpec::nothing()
                .operand("input", "crate::builtin::FloatType", Constraint::Float)
                .result("result", "crate::Integer<1>", Constraint::IntegerOf(1))
                .attribute("class", "Str"),
        )
    } else if same(name, "round") {
        Some(
            OpDefSpec::nothing()
                .operand("captures", "*tir::Any", Constraint::Any)
                .result("results", "*tir::Any", Constraint::Any)
                .attribute("contract", "any")
                .region(RegionKind::Nodes),
        )
    } else if same(name, "fence") {
        Some(
            OpDefSpec::nothing()
                .operand("input", "FloatType", Constraint::Float)
                .result("result", "FloatType", Constraint::Float)
                .one_type(),
        )
    } else {
        None
    }
}

/// What the operation `name` of the `func` dialect is declared as.
pub open spec fn func_definition(name: Seq<char>) -> Option<OpDefView> {
    if name == "call"@ {
        Some(
            OpDefView::nothing()
                .with_operand("callee"@, "crate::builtin::FnType"@, Constraint::Fn)
                .with_operand("args"@, "*Any"@, Constraint::Any)
                .with_result("result"@, "Any"@, Constraint::Any),
        )
    } else if name == "declare"@ {
        Some(
            OpDefView::nothing()
                .with_result("result"@, "crate::builtin::FnType"@, Constraint::Fn)
                .with_attribute("sym_name"@, "Str"@),
        )
    } else if name == "func"@ {
        Some(
            OpDefView::nothing()
                .with_result("result"@, "crate::builtin::FnType"@, Constraint::Fn)
                .with_attribute("sym_name"@, "Str"@)
                .with_attribute("ret_type"@, "Type"@)
                .with_region(RegionKind::Any),
        )
    } else if name == "return"@ {
        Some(OpDefView::nothing().with_operand("value"@, "?Any"@, Constraint::Any))
    } else {
        None
    }
}

fn func_definition_of(name: &str) -> (r: Option<OpDefSpec>)
    ensures
        declares(r, func_definition(name@)),
{
    if same(name, "call") {
        Some(
            OpDefSpec::nothing()
                .operand("callee", "crate::builtin::FnType", Constraint::Fn)
                .operand("args", "*Any", Constraint::Any)
                .result("result", "Any", Constraint::Any),
        )
    } else if same(name, "declare") {
        Some(
            OpDefSpec::nothing()
                .result("result", "crate::builtin::FnType", Constraint::Fn)
                .attribute("sym_name", "Str"),
        )
    } else if same(name, "func") {
        Some(
            OpDefSpec::nothing()
                .result("result", "crate::builtin::FnType", Constraint::Fn)
                .attribute("sym_name", "Str")
                .attribute("ret_type", "Type")
                .region(RegionKind::Any),
        )
    } else if same(name, "return") {
        Some(OpDefSpec::nothing().operand("value", "?Any", Constraint::Any))
    } else {
        None
    }
}

/// What the operation `name` of the `ptr` dialect is declared as.
pub open spec fn ptr_definition(name: Seq<char>) -> Option<OpDefView> {
    if name == "alloca"@ {
        Some(
            OpDefView::nothing()
                .with_result("result"@, "crate::ptr::PtrType"@, Constraint::Ptr)
                .with_attribute("size"@, "UInt"@)
                .with_attribute("align"@, "UInt"@),
        )
    } else if name == "null"@ {
        Some(
            OpDefView::nothing()
                .with_result("result"@, "crate::ptr::PtrType"@, Constraint::Ptr),
        )
    } else if name == "cmp"@ {
        Some(
            OpDefView::nothing()
                .with_operand("lhs"@, "crate::ptr::PtrType"@, Constraint::Ptr)
                .with_operand("rhs"@, "crate::ptr::PtrType"@, Constraint::Ptr)
                .with_result("result"@, "crate::Integer<1>"@, Constraint::IntegerOf(1))
                .with_attribute("predicate"@, "Str"@),
        )
    } else if name == "ptradd"@ {
        Some(
            OpDefView::nothing()
                .with_operand("base"@, "crate::ptr::PtrType"@, Constraint::Ptr)
                .with_operand("offset"@, "crate::builtin::IntegerType"@, Constraint::Integer)
                .with_result("result"@, "crate::ptr::PtrType"@, Constraint::Ptr),
        )
    } else if name == "ptrdiff"@ {
        Some(
            OpDefView::nothing()
                .with_operand("lhs"@, "crate::ptr::PtrType"@, Constraint::Ptr)
                .with_operand("rhs"@, "crate::ptr::PtrType"@, Constraint::Ptr)
                .with_result("result"@, "crate::builtin::IntegerType"@, Constraint::Integer),
        )
    } else if name == "load"@ {
        Some(
            OpDefView::nothing()
                .with_operand("ptr"@, "crate::ptr::PtrType"@, Constraint::Ptr)
                .with_result("result"@, "AnyConstraint"@, Constraint::Any),
        )
    } else if name == "store"@ {
        Some(
            OpDefView::nothing()
                .with_operand("value"@, "AnyConstraint"@, Constraint::Any)
                .with_operand("ptr"@, "crate::ptr::PtrType"@, Constraint::Ptr),
        )
    } else if name == "memcpy"@ {
        Some(
            OpDefView::nothing()
                .with_operand("destination"@, "crate::ptr::PtrType"@, Constraint::Ptr)
                .with_operand("source"@, "crate::ptr::PtrType"@, Constraint::Ptr)
                .with_operand("size"@, "crate::builtin::IntegerType"@, Constraint::Integer),
        )
    } else if name == "memset"@ {
        Some(
            OpDefView::nothing()
                .with_operand("destination"@, "crate::ptr::PtrType"@, Constraint::Ptr)
                .with_operand("value"@, "crate::builtin::IntegerType"@, Constraint::Integer)
                .with_operand("size"@, "crate::builtin::IntegerType"@, Constraint::Integer),
        )
    } else {
        None
    }
}

fn ptr_definition_of(name: &str) -> (r: Option<OpDefSpec>)
    ensures
        declares(r, ptr_definition(name@)),
{
    if same(name, "alloca") {
        Some(
            OpDefSpec::nothing()
                .result("result", "crate::ptr::PtrType", Constraint::Ptr)
                .attribute("size", "UInt")
                .attribute("align", "UInt"),
        )
    } else if same(name, "null") {
        Some(OpDefSpec::nothing().result("result", "crate::ptr::PtrType", Constraint::Ptr))
    } else if same(name, "cmp") {
        Some(
            OpDefSpec::nothing()
                .operand("lhs", "crate::ptr::PtrType", Constraint::Ptr)
                .operand("rhs", "crate::ptr::PtrType", Constraint::Ptr)
                .result("result", "crate::Integer<1>", Constraint::IntegerOf(1))
                .attribute("predicate", "Str"),
        )
    } else if same(name, "ptradd") {
        Some(
            OpDefSpec::nothing()
                .operand("base", "crate::ptr::PtrType", Constraint::Ptr)
                .operand("offset", "crate::builtin::IntegerType", Constraint::Integer)
                .result("result", "crate::ptr::PtrType", Constraint::Ptr),
        )
    } else if same(name, "ptrdiff") {
        Some(
            OpDefSpec::nothing()
                .operand("lhs", "crate::ptr::PtrType", Constraint::Ptr)
                .operand("rhs", "crate::ptr::PtrType", Constraint::Ptr)
                .result("result", "crate::builtin::IntegerType", Constraint::Integer),
        )
    } else if same(name, "load") {
        Some(
            OpDefSpec::nothing()
                .operand("ptr", "crate::ptr::PtrType", Constraint::Ptr)
                .result("result", "AnyConstraint", Constraint::Any),
        )
    } else if same(name, "store") {
        Some(
            OpDefSpec::nothing()
                .operand("value", "AnyConstraint", Constraint::Any)
                .operand("ptr", "crate::ptr::PtrType", Constraint::Ptr),
        )
    } else if same(name, "memcpy") {
        Some(
            OpDefSpec::nothing()
                .operand("destination", "crate::ptr::PtrType", Constraint::Ptr)
                .operand("source", "crate::ptr::PtrType", Constraint::Ptr)
                .operand("size", "crate::builtin::IntegerType", Constraint::Integer),
        )
    } else if same(name, "memset") {
        Some(
            OpDefSpec::nothing()
                .operand("destination", "crate::ptr::PtrType", Constraint::Ptr)
                .operand("value", "crate::builtin::IntegerType", Constraint::Integer)
                .operand("size", "crate::builtin::IntegerType", Constraint::Integer),
        )
    } else {
        None
    }
}

/// What the operation `name` of the `scf` dialect is declared as.
pub open spec fn scf_definition(name: Seq<char>) -> Option<OpDefView> {
    if name == "yield"@ {
        Some(OpDefView::nothing().with_operand("values"@, "*AnyConstraint"@, Constraint::Any))
    } else if name == "loop"@ {
        Some(
            OpDefView::nothing()
                .with_operand("inits"@, "*AnyConstraint"@, Constraint::Any)
                .with_result("results"@, "*AnyConstraint"@, Constraint::Any)
                .with_region(RegionKind::Nodes),
        )
    } else if name == "switch"@ {
        Some(
            OpDefView::nothing()
                .with_operand("predicate"@, "crate::builtin::IntegerType"@, Constraint::Integer)
                .with_operand("inputs"@, "*AnyConstraint"@, Constraint::Any)
                .with_result("results"@, "*AnyConstraint"@, Constraint::Any)
                .with_region(RegionKind::Nodes),
        )
    } else if name == "for"@ {
        Some(
            OpDefView::nothing()
                .with_operand("lb"@, "crate::builtin::Counter"@, Constraint::Counter)
                .with_operand("inits"@, "*AnyConstraint"@, Constraint::Any)
                .with_operand("ub"@, "crate::builtin::Counter"@, Constraint::Counter)
                .with_operand("step"@, "crate::builtin::Counter"@, Constraint::Counter)
                .with_result("results"@, "*AnyConstraint"@, Constraint::Any)
                .with_region(RegionKind::Any),
        )
    } else if name == "ordered_for"@ {
        Some(
            OpDefView::nothing()
                .with_operand("lb"@, "crate::builtin::Counter"@, Constraint::Counter)
                .with_operand("inits"@, "*AnyConstraint"@, Constraint::Any)
                .with_operand("ub"@, "crate::builtin::Counter"@, Constraint::Counter)
                .with_operand("step"@, "crate::builtin::Counter"@, Constraint::Counter)
                .with_result("results"@, "*AnyConstraint"@, Constraint::Any)
                .with_region(RegionKind::Blocks),
        )
    } else {
        None
    }
}

fn scf_definition_of(name: &str) -> (r: Option<OpDefSpec>)
    ensures
        declares(r, scf_definition(name@)),
{
    if same(name, "yield") {
        Some(OpDefSpec::nothing().operand("values", "*AnyConstraint", Constraint::Any))
    } else if same(name, "loop") {
        Some(
            OpDefSpec::nothing()
                .operand("inits", "*AnyConstraint", Constraint::Any)
                .result("results", "*AnyConstraint", Constraint::Any)
                .region(RegionKind::Nodes),
        )
    } else if same(name, "switch") {
        Some(
            OpDefSpec::nothing()
                .operand("predicate", "crate::builtin::IntegerType", Constraint::Integer)
                .operand("inputs", "*AnyConstraint", Constraint::Any)
                .result("results", "*AnyConstraint", Constraint::Any)
                .region(RegionKind::Nodes),
        )
    } else if same(name, "for") {
        Some(
            OpDefSpec::nothing()
                .operand("lb", "crate::builtin::Counter", Constraint::Counter)
                .operand("inits", "*AnyConstraint", Constraint::Any)
                .operand("ub", "crate::builtin::Counter", Constraint::Counter)
                .operand("step", "crate::builtin::Counter", Constraint::Counter)
                .result("results", "*AnyConstraint", Constraint::Any)
                .region(RegionKind::Any),
        )
    } else if same(name, "ordered_for") {
        Some(
            OpDefSpec::nothing()
                .operand("lb", "crate::builtin::Counter", Constraint::Counter)
                .operand("inits", "*AnyConstraint", Constraint::Any)
                .operand("ub", "crate::builtin::Counter", Constraint::Counter)
                .operand("step", "crate::builtin::Counter", Constraint::Counter)
                .result("results", "*AnyConstraint", Constraint::Any)
                .region(RegionKind::Blocks),
        )
    } else {
        None
    }
}

/// What the operation `name` of the `state` dialect is declared as.
pub open spec fn state_definition(name: Seq<char>) -> Option<OpDefView> {
    if name == "entry_state"@ {
        Some(OpDefView::nothing())
    } else if name == "join"@ {
        Some(
            OpDefView::nothing()
                .with_operand("states"@, "*crate::builtin::StateType"@, Constraint::State),
        )
    } else if name == "split"@ {
        Some(
            OpDefView::nothing()
                .with_result("states"@, "*crate::builtin::StateType"@, Constraint::State),
        )
    } else {
        None
    }
}

fn state_definition_of(name: &str) -> (r: Option<OpDefSpec>)
    ensures
        declares(r, state_definition(name@)),
{
    if same(name, "entry_state") {
        Some(OpDefSpec::nothing())
    } else if same(name, "join") {
        Some(
            OpDefSpec::nothing()
                .operand("states", "*crate::builtin::StateType", Constraint::State),
        )
    } else if same(name, "split") {
        Some(
            OpDefSpec::nothing()
                .result("states", "*crate::builtin::StateType", Constraint::State),
        )
    } else {
        None
    }
}

/// What the operation `name` of the `vector` dialect is declared as.
pub open spec fn vector_definition(name: Seq<char>) -> Option<OpDefView> {
    if name == "add"@ || name == "sub"@ || name == "mul"@ {
        Some(
            OpDefView::nothing()
                .with_operand("lhs"@, "crate::vector::VectorType"@, Constraint::Vector)
                .with_operand("rhs"@, "crate::vector::VectorType"@, Constraint::Vector)
                .with_operand("vl"@, "?crate::builtin::IndexType"@, Constraint::Index)
                .with_result("result"@, "crate::vector::VectorType"@, Constraint::Vector),
        )
    } else if name == "vector_len"@ {
        Some(
            OpDefView::nothing()
                .with_operand("avl"@, "crate::builtin::IndexType"@, Constraint::Index)
                .with_result("result"@, "crate::builtin::IndexType"@, Constraint::Index)
                .with_attribute("sew"@, "Int"@),
        )
    } else {
        None
    }
}

fn vector_definition_of(name: &str) -> (r: Option<OpDefSpec>)
    ensures
        declares(r, vector_definition(name@)),
{
    if same(name, "add") || same(name, "sub") || same(name, "mul") {
        Some(
            OpDefSpec::nothing()
                .operand("lhs", "crate::vector::VectorType", Constraint::Vector)
                .operand("rhs", "crate::vector::VectorType", Constraint::Vector)
                .operand("vl", "?crate::builtin::IndexType", Constraint::Index)
                .result("result", "crate::vector::VectorType", Constraint::Vector),
        )
    } else if same(name, "vector_len") {
        Some(
            OpDefSpec::nothing()
                .operand("avl", "crate::builtin::IndexType", Constraint::Index)
                .result("result", "crate::builtin::IndexType", Constraint::Index)
                .attribute("sew", "Int"),
        )
    } else {
        None
    }
}

/// What the operation spelled `identity` is declared as.
pub open spec fn definition(identity: (Seq<char>, Seq<char>)) -> Option<OpDefView> {
    if identity.0 == "builtin"@ {
        builtin_definition(identity.1)
    } else if identity.0 == "cfg"@ {
        cfg_definition(identity.1)
    } else if identity.0 == "fp"@ {
        fp_definition(identity.1)
    } else if identity.0 == "func"@ {
        func_definition(identity.1)
    } else if identity.0 == "ptr"@ {
        ptr_definition(identity.1)
    } else if identity.0 == "scf"@ {
        scf_definition(identity.1)
    } else if identity.0 == "state"@ {
        state_definition(identity.1)
    } else if identity.0 == "vector"@ {
        vector_definition(identity.1)
    } else {
        None
    }
}

/// What the operation `dialect.name` is declared as, where this library declares it.
pub fn definition_of(dialect: &str, name: &str) -> (r: Option<OpDefSpec>)
    ensures
        declares(r, definition((dialect@, name@))),
{
    if same(dialect, "builtin") {
        builtin_definition_of(name)
    } else if same(dialect, "cfg") {
        cfg_definition_of(name)
    } else if same(dialect, "fp") {
        fp_definition_of(name)
    } else if same(dialect, "func") {
        func_definition_of(name)
    } else if same(dialect, "ptr") {
        ptr_definition_of(name)
    } else if same(dialect, "scf") {
        scf_definition_of(name)
    } else if same(dialect, "state") {
        state_definition_of(name)
    } else if same(dialect, "vector") {
        vector_definition_of(name)
    } else {
        None
    }
}

} // verus!

//! What an operation's declaration says of its operands, results, regions and
//! attributes.
use vstd::prelude::*;
use vstd::string::*;
use crate::attributes::Predicate;
use crate::ty::Type;
use crate::ty::TypeView;

verus! {

/// What a declared operand or result may be typed as.
#[derive(Debug, Clone, Copy, PartialEq, Eq, Structural)]
pub enum Constraint {
    /// Every type.
    Any,
    /// An integer of some width.
    Integer,
    /// An integer exactly that wide.
    IntegerOf(u32),
    /// A floating-point format.
    Float,
    /// The index type.
    Index,
    /// What a loop counts through: an integer or an index.
    Counter,
    /// The memory state.
    State,
    /// A function.
    Fn,
    /// A tuple.
    Tuple,
    /// A pointer.
    Ptr,
    /// A vector.
    Vector,
}

impl Constraint {
    /// Whether the constraint allows a type.
    pub open spec fn allows(self, ty: TypeView) -> bool {
        match self {
            Constraint::Any => true,
            Constraint::Integer => ty is Integer,
            Constraint::IntegerOf(width) => ty == TypeView::Integer(width),
            Constraint::Float => ty is Float,
            Constraint::Index => ty is Index,
            Constraint::Counter => ty is Integer || ty is Index,
            Constraint::State => ty is State,
            Constraint::Fn => ty is Fn,
            Constraint::Tuple => ty is Tuple,
            Constraint::Ptr => ty is Ptr,
            Constraint::Vector => ty is Vector,
        }
    }

    /// Whether the constraint allows a type.
    pub fn satisfies(self, ty: &Type) -> (r: bool)
        ensures
            r == self.allows(ty@),
    {
        match (self, ty) {
            (Constraint::Any, _) => true,
            (Constraint::Integer, Type::Integer(_)) => true,
            (Constraint::IntegerOf(width), Type::Integer(t)) => t.width == width,
            (Constraint::Float, Type::Float(_)) => true,
            (Constraint::Index, Type::Index(_)) => true,
            (Constraint::Counter, Type::Integer(_)) => true,
            (Constraint::Counter, Type::Index(_)) => true,
            (Constraint::State, Type::State(_)) => true,
            (Constraint::Fn, Type::Fn(_)) => true,
            (Constraint::Tuple, Type::Tuple(_)) => true,
            (Constraint::Ptr, Type::Ptr(_)) => true,
            (Constraint::Vector, Type::Vector(_)) => true,
            _ => false,
        }
    }
}

/// What a declared region's body may be.
#[derive(Debug, Clone, Copy, PartialEq, Eq, Structural)]
pub enum RegionKind {
    Blocks,
    Nodes,
    Any,
}

impl RegionKind {
    /// Whether the kind allows a body that is, or is not, unordered.
    pub open spec fn allows(self, nodes: bool) -> bool {
        match self {
            RegionKind::Blocks => !nodes,
            RegionKind::Nodes => nodes,
            RegionKind::Any => true,
        }
    }

    /// The spelling of the kind.
    pub open spec fn spelling(self) -> Seq<char> {
        match self {
            RegionKind::Blocks => "Blocks"@,
            RegionKind::Nodes => "Nodes"@,
            RegionKind::Any => "Any"@,
        }
    }

    pub fn permits(self, nodes: bool) -> (r: bool)
        ensures
            r == self.allows(nodes),
    {
        match self {
            RegionKind::Blocks => !nodes,
            RegionKind::Nodes => nodes,
            RegionKind::Any => true,
        }
    }

    pub fn name(self) -> (s: &'static str)
        ensures
            s@ == self.spelling(),
    {
        match self {
            RegionKind::Blocks => "Blocks",
            RegionKind::Nodes => "Nodes",
            RegionKind::Any => "Any",
        }
    }
}

/// A declared operand or result: its name, and the constraint it names, led by
/// `?` where it may be absent and by `*` where it stands for any number.
#[derive(Debug, Clone, Copy)]
pub struct FieldSchema {
    pub name: &'static str,
    pub ty: &'static str,
    pub variadic: bool,
}

/// What a field declares.
pub ghost struct FieldView {
    pub name: Seq<char>,
    pub ty: Seq<char>,
    pub variadic: bool,
}

impl View for FieldSchema {
    type V = FieldView;

    open spec fn view(&self) -> FieldView {
        FieldView { name: self.name@, ty: self.ty@, variadic: self.variadic }
    }
}

impl FieldView {
    /// Whether the field may be absent.
    pub open spec fn optional(self) -> bool {
        self.ty.len() > 0 && self.ty[0] == '?'
    }
}

/// A declared attribute: its name, its type's name, and the predicates it may
/// be, where it is one of a vocabulary.
#[derive(Debug)]
pub struct AttrSchema {
    pub name: &'static str,
    pub ty: &'static str,
    pub vocabulary: Vec<Predicate>,
}

/// What an attribute's declaration says.
pub ghost struct AttrSchemaView {
    pub name: Seq<char>,
    pub ty: Seq<char>,
    pub vocabulary: Seq<Predicate>,
}

impl View for AttrSchema {
    type V = AttrSchemaView;

    open spec fn view(&self) -> AttrSchemaView {
        AttrSchemaView { name: self.name@, ty: self.ty@, vocabulary: self.vocabulary@ }
    }
}

/// The declared operands, results and attributes of an operation.
#[derive(Debug)]
pub struct OpSchema {
    pub operands: Vec<FieldSchema>,
    pub results: Vec<FieldSchema>,
    pub attributes: Vec<AttrSchema>,
}

/// What verification reads of an operation's declaration.
#[derive(Debug)]
pub struct OpDefSpec {
    pub schema: OpSchema,
    pub operand_checkers: Vec<Constraint>,
    pub result_checkers: Vec<Constraint>,
    /// What each declared region's body may be, positionally. Checked against
    /// what the op actually holds, so an op declaring blocks cannot be handed
    /// an unordered region.
    pub region_kinds: Vec<RegionKind>,
    /// Every operand and value result carries one type.
    pub same_type: bool,
}

/// What an operation's declaration says.
pub ghost struct OpDefView {
    pub operands: Seq<FieldView>,
    pub results: Seq<FieldView>,
    pub attributes: Seq<AttrSchemaView>,
    pub operand_checkers: Seq<Constraint>,
    pub result_checkers: Seq<Constraint>,
    pub region_kinds: Seq<RegionKind>,
    pub same_type: bool,
}

impl View for OpDefSpec {
    type V = OpDefView;

    open spec fn view(&self) -> OpDefView {
        OpDefView {
            operands: self.schema.operands@.map_values(|f: FieldSchema| f@),
            results: self.schema.results@.map_values(|f: FieldSchema| f@),
            attributes: self.schema.attributes@.map_values(|a: AttrSchema| a@),
            operand_checkers: self.operand_checkers@,
            result_checkers: self.result_checkers@,
            region_kinds: self.region_kinds@,
            same_type: self.same_type,
        }
    }
}

impl OpDefView {
    /// Whether every declared operand and result has its constraint.
    pub open spec fn wf(self) -> bool {
        &&& self.operand_checkers.len() == self.operands.len()
        &&& self.result_checkers.len() == self.results.len()
    }

    /// Whether some operand stands for any number of values.
    pub open spec fn variadic_operands(self) -> bool {
        exists|i: int| 0 <= i < self.operands.len() && (#[trigger] self.operands[i]).variadic
    }

    /// Whether some result stands for any number of values.
    pub open spec fn variadic_results(self) -> bool {
        exists|i: int| 0 <= i < self.results.len() && (#[trigger] self.results[i]).variadic
    }

    /// Whether some result may be absent.
    pub open spec fn optional_results(self) -> bool {
        exists|i: int| 0 <= i < self.results.len() && (#[trigger] self.results[i]).optional()
    }
}

/// The constraint a field's declared type names, with the optional (`?`) and
/// variadic (`*`) markers stripped: what verification errors report.
pub open spec fn constraint_spelling(ty: Seq<char>) -> Seq<char> {
    if ty.len() > 0 && (ty[0] == '?' || ty[0] == '*') {
        ty.skip(1)
    } else {
        ty
    }
}

/// The constraint a field's declared type names, without its marker.
pub fn constraint_name(ty: &'static str) -> (s: &'static str)
    ensures
        s@ == constraint_spelling(ty@),
{
    let n: usize = ty.unicode_len();
    if n > 0 && (ty.get_char(0) == '?' || ty.get_char(0) == '*') {
        let s = ty.substring_char(1, n);
        assert(s@ =~= ty@.skip(1));
        s
    } else {
        ty
    }
}

impl FieldSchema {
    /// Whether the field may be absent.
    pub fn is_optional(&self) -> (r: bool)
        ensures
            r == self@.optional(),
    {
        self.ty.unicode_len() > 0 && self.ty.get_char(0) == '?'
    }
}

impl OpDefSpec {
    pub fn has_variadic_operands(&self) -> (r: bool)
        ensures
            r == self@.variadic_operands(),
    {
        let mut i: usize = 0;
        while i < self.schema.operands.len()
            invariant
                i <= self.schema.operands.len(),
                forall|j: int| 0 <= j < i ==> !(#[trigger] self@.operands[j]).variadic,
            decreases self.schema.operands.len() - i,
        {
            assert(self@.operands[i as int] == self.schema.operands@[i as int]@);
            if self.schema.operands[i].variadic {
                return true;
            }
            i += 1;
        }
        false
    }

    pub fn has_variadic_results(&self) -> (r: bool)
        ensures
            r == self@.variadic_results(),
    {
        let mut i: usize = 0;
        while i < self.schema.results.len()
            invariant
                i <= self.schema.results.len(),
                forall|j: int| 0 <= j < i ==> !(#[trigger] self@.results[j]).variadic,
            decreases self.schema.results.len() - i,
        {
            assert(self@.results[i as int] == self.schema.results@[i as int]@);
            if self.schema.results[i].variadic {
                return true;
            }
            i += 1;
        }
        false
    }

    pub fn has_optional_results(&self) -> (r: bool)
        ensures
            r == self@.optional_results(),
    {
        let mut i: usize = 0;
        while i < self.schema.results.len()
            invariant
                i <= self.schema.results.len(),
                forall|j: int| 0 <= j < i ==> !(#[trigger] self@.results[j]).optional(),
            decreases self.schema.results.len() - i,
        {
            assert(self@.results[i as int] == self.schema.results@[i as int]@);
            if self.schema.results[i].is_optional() {
                return true;
            }
            i += 1;
        }
        false
    }
}

} // verus!

//! Types and the table that interns them.
use vstd::prelude::*;
use vstd::string::*;
use crate::context::edits::first_position;
use crate::context::edits::first_position_at;
use crate::backend::classes::same_class;
use crate::backend::classes::ClassView;
use crate::backend::classes::RegClassId;
use crate::ids::state_type;
use crate::ids::TypeId;
use crate::text::decimal;
use crate::text::decimal_string;
use crate::text::same;

verus! {

/// A signless integer of a fixed width, written `!i32`.
#[derive(Debug, Clone, Copy)]
pub struct IntegerType {
    pub width: u32,
}

/// An integer as wide as the target's addresses are indexed with, `!index`.
#[derive(Debug, Clone, Copy)]
pub struct IndexType;

/// The type of an operation that produces nothing, `!unit`.
#[derive(Debug, Clone, Copy)]
pub struct UnitType;

/// The memory state token, written `!state`.
///
/// A `!state` value names the state of memory at a point in the program. Ops
/// that touch memory consume the state they observe and produce the state they
/// leave behind, so memory dependences are explicit def-use edges.
#[derive(Debug, Clone, Copy)]
pub struct StateType;

/// The last parameter type of a signature that takes any further arguments.
#[derive(Debug, Clone, Copy)]
pub struct VarArgsType;

/// A value that names a loop to leave or to continue.
#[derive(Debug, Clone, Copy)]
pub struct TokenType;

/// A binary floating-point format with a sign bit, written `!f32`.
#[derive(Debug, Clone, Copy)]
pub struct FloatType {
    pub exponent: u32,
    pub mantissa: u32,
}

/// The type of a function value, written `!fn<(!i32, !i32) -> !i32>`.
///
/// A variadic signature ends in a variadic-tail parameter type rather than
/// carrying a separate flag.
#[derive(Debug)]
pub struct FnType {
    pub params: Vec<TypeId>,
    pub ret: TypeId,
}

/// A fixed list of values of fixed types, written `!tuple<!i32, !index>`.
#[derive(Debug)]
pub struct TupleType {
    pub elements: Vec<TypeId>,
}

/// A pointer type, written `!ptr.p` (opaque) or `!ptr.p<!i32>` (typed). A typed
/// pointer remembers its pointee so loads can recover their result type; an
/// opaque pointer carries no pointee.
#[derive(Debug, Clone, Copy)]
pub struct PtrType {
    pub pointee: Option<TypeId>,
}

/// A vector type, written `vec<8xi32>` (static) or `vec<i32>` (dynamic). A static
/// vector fixes its lane count; a dynamic one leaves it unknown until run time.
#[derive(Debug, Clone, Copy)]
pub struct VectorType {
    pub element: TypeId,
    pub length: Option<u32>,
}

/// The type of a virtual register: its register class, written
/// `!<dialect>.<class>` (`!x86_64.GPR`).
///
/// Every value a machine instruction reads or writes carries one, so a value's
/// class is a type read rather than a search for an attribute naming it.
#[derive(Debug, Clone, Copy)]
pub struct RegClassType(pub RegClassId);

/// The constraint of an integer exactly `N` bits wide.
#[derive(Debug, Clone, Copy)]
pub struct Integer<const N: usize>;

/// A type.
#[derive(Debug)]
pub enum Type {
    State(StateType),
    Integer(IntegerType),
    Index(IndexType),
    Unit(UnitType),
    VarArgs(VarArgsType),
    Token(TokenType),
    Float(FloatType),
    Fn(FnType),
    Tuple(TupleType),
    Ptr(PtrType),
    Vector(VectorType),
    RegClass(RegClassType),
}

/// What a type is.
pub ghost enum TypeView {
    State,
    Integer(u32),
    Index,
    Unit,
    VarArgs,
    Token,
    Float(u32, u32),
    Fn(Seq<TypeId>, TypeId),
    Tuple(Seq<TypeId>),
    Ptr(Option<TypeId>),
    Vector(TypeId, Option<u32>),
    RegClass(ClassView),
}

impl View for Type {
    type V = TypeView;

    open spec fn view(&self) -> TypeView {
        match self {
            Type::State(_) => TypeView::State,
            Type::Integer(t) => TypeView::Integer(t.width),
            Type::Index(_) => TypeView::Index,
            Type::Unit(_) => TypeView::Unit,
            Type::VarArgs(_) => TypeView::VarArgs,
            Type::Token(_) => TypeView::Token,
            Type::Float(t) => TypeView::Float(t.exponent, t.mantissa),
            Type::Fn(t) => TypeView::Fn(t.params@, t.ret),
            Type::Tuple(t) => TypeView::Tuple(t.elements@),
            Type::Ptr(t) => TypeView::Ptr(t.pointee),
            Type::Vector(t) => TypeView::Vector(t.element, t.length),
            Type::RegClass(t) => TypeView::RegClass(t.0@),
        }
    }
}

impl TypeView {
    /// Whether every type it is made from has an id below `n`.
    pub open spec fn made_below(self, n: int) -> bool {
        match self {
            TypeView::Fn(params, ret) => ret.0 < n && forall|i: int|
                0 <= i < params.len() ==> (#[trigger] params[i]).0 < n,
            TypeView::Tuple(elements) => forall|i: int|
                0 <= i < elements.len() ==> (#[trigger] elements[i]).0 < n,
            TypeView::Ptr(Some(pointee)) => pointee.0 < n,
            TypeView::Vector(element, _) => element.0 < n,
            _ => true,
        }
    }

    /// The dialect the type belongs to.
    pub open spec fn home(self) -> Seq<char> {
        match self {
            TypeView::Ptr(_) => "ptr"@,
            TypeView::Vector(_, _) => "vector"@,
            TypeView::RegClass(class) => class.dialect,
            _ => "builtin"@,
        }
    }
}

/// The width of a floating-point format in bits.
pub open spec fn float_bits(exponent: u32, mantissa: u32) -> nat {
    (1 + exponent + mantissa) as nat
}

/// A type with its dialect, as it stands in the text.
pub open spec fn type_text(types: Seq<TypeView>, id: TypeId) -> Seq<char>
    decreases id.0, 2nat, 0nat,
{
    if id.0 < types.len() {
        "!"@ + if types[id.0 as int].home() != "builtin"@ {
            types[id.0 as int].home() + "."@
        } else {
            Seq::<char>::empty()
        } + type_body(types, id)
    } else {
        Seq::empty()
    }
}

/// A type without its dialect.
pub open spec fn type_body(types: Seq<TypeView>, id: TypeId) -> Seq<char>
    decreases id.0, 1nat, 0nat,
{
    if id.0 >= types.len() || !types[id.0 as int].made_below(id.0 as int) {
        Seq::empty()
    } else {
        match types[id.0 as int] {
            TypeView::State => "state"@,
            TypeView::Integer(width) => "i"@ + decimal(width as nat),
            TypeView::Index => "index"@,
            TypeView::Unit => "unit"@,
            TypeView::VarArgs => "varargs"@,
            TypeView::Token => "token"@,
            TypeView::Float(exponent, mantissa) => "f"@ + decimal(float_bits(exponent, mantissa)),
            TypeView::Fn(params, ret) => "fn<("@ + type_list(types, id, params, params.len())
                + ") -> "@ + type_text(types, ret) + ">"@,
            TypeView::Tuple(elements) => "tuple<"@ + type_list(types, id, elements, elements.len())
                + ">"@,
            TypeView::Ptr(pointee) => match pointee {
                Some(ty) => "p<"@ + type_text(types, ty) + ">"@,
                None => "p"@,
            },
            TypeView::Vector(element, length) => "vec<"@ + match length {
                Some(n) => decimal(n as nat) + "x"@,
                None => Seq::<char>::empty(),
            } + type_body(types, element) + ">"@,
            TypeView::RegClass(class) => class.name,
        }
    }
}

/// The first `count` types of `list`, which are all interned before `owner`,
/// separated by commas.
pub open spec fn type_list(
    types: Seq<TypeView>,
    owner: TypeId,
    list: Seq<TypeId>,
    count: nat,
) -> Seq<char>
    decreases owner.0, 0nat, count,
{
    if count == 0 || count > list.len() || list[count - 1].0 >= owner.0 {
        Seq::empty()
    } else if count == 1 {
        type_text(types, list[0])
    } else {
        type_list(types, owner, list, (count - 1) as nat) + ", "@ + type_text(
            types,
            list[count - 1],
        )
    }
}

fn same_ids(a: &Vec<TypeId>, b: &Vec<TypeId>) -> (r: bool)
    ensures
        r == (a@ == b@),
{
    if a.len() != b.len() {
        return false;
    }
    let mut i: usize = 0;
    while i < a.len()
        invariant
            i <= a.len(),
            a.len() == b.len(),
            forall|j: int| 0 <= j < i ==> a@[j] == b@[j],
        decreases a.len() - i,
    {
        if a[i] != b[i] {
            assert(a@[i as int] != b@[i as int]);
            return false;
        }
        i += 1;
    }
    assert(a@ =~= b@);
    true
}

impl FloatType {
    /// The width of the exponent field.
    pub fn exp_width(&self) -> (w: u32)
        ensures
            w == self.exponent,
    {
        self.exponent
    }

    /// The width of the mantissa field.
    pub fn mant_width(&self) -> (w: u32)
        ensures
            w == self.mantissa,
    {
        self.mantissa
    }

    /// The width of the whole format.
    pub fn bit_width(&self) -> (w: u64)
        ensures
            w == float_bits(self.exponent, self.mantissa),
    {
        1 + self.exponent as u64 + self.mantissa as u64
    }
}

impl IntegerType {
    /// The number of bits.
    pub fn width(&self) -> (w: u32)
        ensures
            w == self.width,
    {
        self.width
    }
}

impl VectorType {
    /// The lane count a static vector fixes.
    pub fn length(&self) -> (r: Option<u32>)
        ensures
            r == self.length,
    {
        self.length
    }
}

impl RegClassType {
    /// The register class.
    pub fn class(&self) -> (r: RegClassId)
        ensures
            r == self.0,
    {
        self.0
    }
}

impl Type {
    /// The dialect the type belongs to.
    pub fn dialect(&self) -> (d: &'static str)
        ensures
            d@ == self@.home(),
    {
        match self {
            Type::Ptr(_) => "ptr",
            Type::Vector(_) => "vector",
            Type::RegClass(t) => t.0.dialect(),
            _ => "builtin",
        }
    }

    /// Whether two types are the same type.
    pub fn equals(&self, other: &Type) -> (r: bool)
        ensures
            r == (self@ == other@),
    {
        match (self, other) {
            (Type::State(_), Type::State(_)) => true,
            (Type::Integer(a), Type::Integer(b)) => a.width == b.width,
            (Type::Index(_), Type::Index(_)) => true,
            (Type::Unit(_), Type::Unit(_)) => true,
            (Type::VarArgs(_), Type::VarArgs(_)) => true,
            (Type::Token(_), Type::Token(_)) => true,
            (Type::Float(a), Type::Float(b)) => a.exponent == b.exponent && a.mantissa
                == b.mantissa,
            (Type::Fn(a), Type::Fn(b)) => a.ret == b.ret && same_ids(&a.params, &b.params),
            (Type::Tuple(a), Type::Tuple(b)) => same_ids(&a.elements, &b.elements),
            (Type::Ptr(a), Type::Ptr(b)) => match (a.pointee, b.pointee) {
                (None, None) => true,
                (Some(x), Some(y)) => x == y,
                _ => false,
            },
            (Type::Vector(a), Type::Vector(b)) => a.element == b.element && match (
                a.length,
                b.length,
            ) {
                (None, None) => true,
                (Some(x), Some(y)) => x == y,
                _ => false,
            },
            (Type::RegClass(a), Type::RegClass(b)) => same_class(a.0, b.0),
            _ => false,
        }
    }
}

/// The types of a context, each held once under the id it was given.
pub struct TypeTable {
    types: Vec<Type>,
}

impl View for TypeTable {
    type V = Seq<TypeView>;

    closed spec fn view(&self) -> Seq<TypeView> {
        self.types@.map_values(|t: Type| t@)
    }
}

/// No two ids name the same type, every type is made from types interned
/// before it, and the memory state type comes first.
pub open spec fn table_wf(types: Seq<TypeView>) -> bool {
    &&& 1 <= types.len() <= u32::MAX
    &&& types[0] == TypeView::State
    &&& forall|i: int| 0 <= i < types.len() ==> (#[trigger] types[i]).made_below(i)
    &&& forall|i: int, j: int| 0 <= i < j < types.len() ==> types[i] != types[j]
}

/// The table after `ty` was interned: the same where it holds `ty`.
pub open spec fn interned(types: Seq<TypeView>, ty: TypeView) -> Seq<TypeView> {
    if types.contains(ty) {
        types
    } else {
        types.push(ty)
    }
}

impl TypeTable {
    /// The table that holds the memory state type.
    pub fn new() -> (r: Self)
        ensures
            table_wf(r@),
            r@ == seq![TypeView::State],
    {
        let mut types: Vec<Type> = Vec::new();
        types.push(Type::State(StateType));
        let r = TypeTable { types };
        assert(r@ =~= seq![TypeView::State]);
        r
    }

    /// How many types the table holds.
    pub fn len(&self) -> (n: usize)
        ensures
            n == self@.len(),
    {
        self.types.len()
    }

    /// The id of `ty`, which is given one on first sight.
    pub fn intern(&mut self, ty: Type) -> (id: TypeId)
        requires
            table_wf(old(self)@),
            old(self)@.len() < u32::MAX,
            ty@.made_below(old(self)@.len() as int),
        ensures
            table_wf(final(self)@),
            final(self)@ == interned(old(self)@, ty@),
            id.0 < final(self)@.len(),
            final(self)@[id.0 as int] == ty@,
            first_position(final(self)@, ty@) == Some(id.0 as int),
    {
        let mut i: usize = 0;
        while i < self.types.len()
            invariant
                i <= self.types.len(),
                *self == *old(self),
                table_wf(self@),
                self@.len() == self.types.len(),
                forall|j: int| 0 <= j < i ==> self@[j] != ty@,
            decreases self.types.len() - i,
        {
            assert(self@[i as int] == self.types[i as int]@);
            if self.types[i].equals(&ty) {
                assert(self@.contains(ty@));
                proof {
                    first_position_at(self@, ty@, i as int);
                }
                return TypeId(i as u32);
            }
            i += 1;
        }
        let ghost before = self@;
        let ghost added = ty@;
        let id = TypeId(self.types.len() as u32);
        self.types.push(ty);
        assert(self@ =~= before.push(added));
        proof {
            first_position_at(self@, added, id.0 as int);
        }
        id
    }

    /// The type `id` names.
    pub fn get(&self, id: TypeId) -> (r: &Type)
        requires
            id.0 < self@.len(),
        ensures
            r@ == self@[id.0 as int],
    {
        &self.types[id.0 as usize]
    }

    /// The type `id` names, with its dialect, as it stands in the text.
    pub fn text(&self, id: TypeId) -> (s: String)
        requires
            table_wf(self@),
            id.0 < self@.len(),
        ensures
            s@ == type_text(self@, id),
        decreases id.0, 2nat,
    {
        let home: &'static str = self.get(id).dialect();
        let mut s = "!".to_owned();
        if !same(home, "builtin") {
            s.append(home);
            s.append(".");
        }
        s.append(self.body(id).as_str());
        proof {
            let h = self@[id.0 as int].home();
            if h != "builtin"@ {
                assert(s@ =~= "!"@ + (h + "."@) + type_body(self@, id));
            } else {
                assert(s@ =~= "!"@ + Seq::<char>::empty() + type_body(self@, id));
            }
        }
        s
    }

    /// The type `id` names, without its dialect, as it stands in the text.
    pub fn body(&self, id: TypeId) -> (s: String)
        requires
            table_wf(self@),
            id.0 < self@.len(),
        ensures
            s@ == type_body(self@, id),
        decreases id.0, 1nat,
    {
        proof {
            assert(self@[id.0 as int].made_below(id.0 as int));
        }
        match self.get(id) {
            Type::State(_) => "state".to_owned(),
            Type::Integer(t) => {
                let mut s = "i".to_owned();
                s.append(decimal_string(t.width as u64).as_str());
                s
            },
            Type::Index(_) => "index".to_owned(),
            Type::Unit(_) => "unit".to_owned(),
            Type::VarArgs(_) => "varargs".to_owned(),
            Type::Token(_) => "token".to_owned(),
            Type::Float(t) => {
                let mut s = "f".to_owned();
                s.append(decimal_string(t.bit_width()).as_str());
                s
            },
            Type::Fn(t) => {
                assert(TypeView::Fn(t.params@, t.ret).made_below(id.0 as int));
                let mut s = "fn<(".to_owned();
                s.append(self.list(id, &t.params).as_str());
                s.append(") -> ");
                s.append(self.text(t.ret).as_str());
                s.append(">");
                s
            },
            Type::Tuple(t) => {
                assert(TypeView::Tuple(t.elements@).made_below(id.0 as int));
                let mut s = "tuple<".to_owned();
                s.append(self.list(id, &t.elements).as_str());
                s.append(">");
                s
            },
            Type::Ptr(t) => match t.pointee {
                Some(ty) => {
                    let mut s = "p<".to_owned();
                    s.append(self.text(ty).as_str());
                    s.append(">");
                    s
                },
                None => "p".to_owned(),
            },
            Type::Vector(t) => {
                let mut s = "vec<".to_owned();
                let ghost lead = s@;
                if let Some(n) = t.length {
                    s.append(decimal_string(n as u64).as_str());
                    s.append("x");
                    assert(s@ =~= lead + (decimal(n as nat) + "x"@));
                } else {
                    assert(s@ =~= lead + Seq::<char>::empty());
                }
                s.append(self.body(t.element).as_str());
                s.append(">");
                s
            },
            Type::RegClass(t) => t.0.name().to_owned(),
        }
    }

    fn list(&self, owner: TypeId, list: &Vec<TypeId>) -> (s: String)
        requires
            table_wf(self@),
            owner.0 < self@.len(),
            forall|i: int| 0 <= i < list@.len() ==> (#[trigger] list@[i]).0 < owner.0,
        ensures
            s@ == type_list(self@, owner, list@, list@.len()),
        decreases owner.0, 0nat,
    {
        let mut s = String::new();
        let mut i: usize = 0;
        while i < list.len()
            invariant
                i <= list.len(),
                table_wf(self@),
                owner.0 < self@.len(),
                forall|i: int| 0 <= i < list@.len() ==> (#[trigger] list@[i]).0 < owner.0,
                s@ == type_list(self@, owner, list@, i as nat),
            decreases list.len() - i,
        {
            assert(list@[i as int].0 < owner.0);
            let next = self.text(list[i]);
            if i > 0 {
                s.append(", ");
            }
            let ghost before = s@;
            s.append(next.as_str());
            if i == 0 {
                assert(s@ =~= next@);
            }
            i += 1;
        }
        s
    }
}

/// Interning never moves an id, and gives a type the same id every time.
pub proof fn interning_is_stable(types: Seq<TypeView>, ty: TypeView, id: TypeId)
    requires
        table_wf(types),
        id.0 < types.len(),
    ensures
        interned(types, ty)[id.0 as int] == types[id.0 as int],
        interned(interned(types, ty), ty) == interned(types, ty),
        types[id.0 as int] == ty ==> interned(types, ty) == types,
{
    assert(types.push(ty).last() == ty);
    assert(types.push(ty).contains(ty));
}

/// Two ids of one table name the same type only when they are the same id.
pub proof fn type_ids_are_canonical(types: Seq<TypeView>, a: TypeId, b: TypeId)
    requires
        table_wf(types),
        a.0 < types.len(),
        b.0 < types.len(),
        types[a.0 as int] == types[b.0 as int],
    ensures
        a == b,
{
}

/// The memory state type has the same id in every table.
pub proof fn state_type_is_first(types: Seq<TypeView>, id: TypeId)
    requires
        table_wf(types),
        id.0 < types.len(),
        types[id.0 as int] == TypeView::State,
    ensures
        id == state_type(),
{
}

} // verus!

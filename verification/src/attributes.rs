//! Attributes: the compile-time data an operation, a block or a scope carries.
use vstd::prelude::*;
use crate::backend::classes::same_class;
use crate::backend::classes::ClassView;
use crate::backend::classes::PhysReg;
use crate::backend::classes::RegClassId;
use crate::ids::BlockId;
use crate::ids::TypeId;
use crate::ids::ValueId;
use crate::text::same;
use crate::text::text_before;
use crate::text::text_less;
use crate::text::text_order_is_total;
use crate::text::text_order_is_transitive;

verus! {

/// A comparison an operation can make.
#[derive(Debug, Clone, Copy, PartialEq, Eq, Structural)]
pub enum Predicate {
    Eq,
    Ne,
    Slt,
    Sle,
    Sgt,
    Sge,
    Ult,
    Ule,
    Ugt,
    Uge,
}

impl Predicate {
    /// The spelling of the predicate.
    pub open spec fn spelling(self) -> Seq<char> {
        match self {
            Predicate::Eq => "eq"@,
            Predicate::Ne => "ne"@,
            Predicate::Slt => "slt"@,
            Predicate::Sle => "sle"@,
            Predicate::Sgt => "sgt"@,
            Predicate::Sge => "sge"@,
            Predicate::Ult => "ult"@,
            Predicate::Ule => "ule"@,
            Predicate::Ugt => "ugt"@,
            Predicate::Uge => "uge"@,
        }
    }

    /// The predicate that says of `(b, a)` what `p` says of `(a, b)`.
    pub open spec fn exchange(p: Predicate) -> Predicate {
        match p {
            Predicate::Eq => Predicate::Eq,
            Predicate::Ne => Predicate::Ne,
            Predicate::Slt => Predicate::Sgt,
            Predicate::Sle => Predicate::Sge,
            Predicate::Sgt => Predicate::Slt,
            Predicate::Sge => Predicate::Sle,
            Predicate::Ult => Predicate::Ugt,
            Predicate::Ule => Predicate::Uge,
            Predicate::Ugt => Predicate::Ult,
            Predicate::Uge => Predicate::Ule,
        }
    }

    /// Whether the predicate holds of `a` and `b`, read as signed numbers where
    /// it is signed, as unsigned ones otherwise.
    pub open spec fn holds(self, a: int, b: int) -> bool {
        match self {
            Predicate::Eq => a == b,
            Predicate::Ne => a != b,
            Predicate::Slt => a < b,
            Predicate::Ult => a < b,
            Predicate::Sle => a <= b,
            Predicate::Ule => a <= b,
            Predicate::Sgt => a > b,
            Predicate::Ugt => a > b,
            Predicate::Sge => a >= b,
            Predicate::Uge => a >= b,
        }
    }

    /// The spelling of the predicate.
    pub fn name(self) -> (s: &'static str)
        ensures
            s@ == self.spelling(),
    {
        match self {
            Predicate::Eq => "eq",
            Predicate::Ne => "ne",
            Predicate::Slt => "slt",
            Predicate::Sle => "sle",
            Predicate::Sgt => "sgt",
            Predicate::Sge => "sge",
            Predicate::Ult => "ult",
            Predicate::Ule => "ule",
            Predicate::Ugt => "ugt",
            Predicate::Uge => "uge",
        }
    }

    /// The predicate with its operands exchanged.
    pub fn swapped(self) -> (p: Predicate)
        ensures
            p == Predicate::exchange(self),
    {
        match self {
            Predicate::Eq => Predicate::Eq,
            Predicate::Ne => Predicate::Ne,
            Predicate::Slt => Predicate::Sgt,
            Predicate::Sle => Predicate::Sge,
            Predicate::Sgt => Predicate::Slt,
            Predicate::Sge => Predicate::Sle,
            Predicate::Ult => Predicate::Ugt,
            Predicate::Ule => Predicate::Uge,
            Predicate::Ugt => Predicate::Ult,
            Predicate::Uge => Predicate::Ule,
        }
    }
}

/// Exchanging the operands of a comparison and its predicate says the same.
pub proof fn swapped_predicate_says_the_same(p: Predicate, a: int, b: int)
    ensures
        Predicate::exchange(p).holds(b, a) == p.holds(a, b),
        Predicate::exchange(Predicate::exchange(p)) == p,
{
}

/// A register named by an attribute.
#[derive(Debug, Clone, Copy)]
pub enum RegisterAttr {
    /// A physical register an instruction names directly.
    Physical { class: RegClassId, index: u16 },
    /// The physical register a value was allocated.
    Assigned { value: ValueId, class: RegClassId, index: u16 },
}

/// The value of an attribute. A floating-point number is held as its bits.
#[derive(Debug)]
pub enum AttributeValue {
    Str(String),
    Int(i64),
    UInt(u64),
    F32(u32),
    F64(u64),
    Bool(bool),
    Array(Vec<AttributeValue>),
    Dict(AttributeDict),
    Register(RegisterAttr),
    Type(TypeId),
    Block(BlockId),
    Value(ValueId),
    Predicate(Predicate),
}

/// One entry of a dictionary attribute.
#[derive(Debug)]
pub struct DictEntry {
    pub key: String,
    pub value: AttributeValue,
}

/// The entries of a dictionary attribute. A dictionary holds a key once, and its
/// keys in order.
#[derive(Debug)]
pub struct AttributeDict {
    entries: Vec<DictEntry>,
}

/// What an attribute says.
pub ghost enum AttrView {
    Str(Seq<char>),
    Int(int),
    UInt(nat),
    F32(u32),
    F64(u64),
    Bool(bool),
    Array(Seq<AttrView>),
    Dict(Seq<(Seq<char>, AttrView)>),
    Physical(ClassView, u16),
    Assigned(ValueId, ClassView, u16),
    Type(TypeId),
    Block(BlockId),
    Value(ValueId),
    Predicate(Predicate),
}

pub open spec fn attr_view(value: AttributeValue) -> AttrView
    decreases value,
{
    match value {
        AttributeValue::Str(s) => AttrView::Str(s@),
        AttributeValue::Int(n) => AttrView::Int(n as int),
        AttributeValue::UInt(n) => AttrView::UInt(n as nat),
        AttributeValue::F32(bits) => AttrView::F32(bits),
        AttributeValue::F64(bits) => AttrView::F64(bits),
        AttributeValue::Bool(b) => AttrView::Bool(b),
        AttributeValue::Array(items) => AttrView::Array(
            Seq::new(
                items.len() as nat,
                |i: int|
                    if 0 <= i < items.len() {
                        attr_view(items[i])
                    } else {
                        arbitrary()
                    },
            ),
        ),
        AttributeValue::Dict(dict) => AttrView::Dict(dict_view(dict)),
        AttributeValue::Register(register) => match register {
            RegisterAttr::Physical { class, index } => AttrView::Physical(class@, index),
            RegisterAttr::Assigned { value, class, index } => AttrView::Assigned(
                value,
                class@,
                index,
            ),
        },
        AttributeValue::Type(ty) => AttrView::Type(ty),
        AttributeValue::Block(block) => AttrView::Block(block),
        AttributeValue::Value(value) => AttrView::Value(value),
        AttributeValue::Predicate(p) => AttrView::Predicate(p),
    }
}

pub open spec fn entry_view(entry: DictEntry) -> (Seq<char>, AttrView)
    decreases entry,
{
    (entry.key@, attr_view(entry.value))
}

pub closed spec fn dict_view(dict: AttributeDict) -> Seq<(Seq<char>, AttrView)>
    decreases dict,
{
    Seq::new(
        dict.entries.len() as nat,
        |i: int|
            if 0 <= i < dict.entries.len() {
                entry_view(dict.entries[i])
            } else {
                arbitrary()
            },
    )
}

impl View for AttributeDict {
    type V = Seq<(Seq<char>, AttrView)>;

    open spec fn view(&self) -> Seq<(Seq<char>, AttrView)> {
        dict_view(*self)
    }
}

/// Whether the keys of a dictionary are in order, each there once.
pub open spec fn rises(entries: Seq<(Seq<char>, AttrView)>) -> bool {
    forall|i: int, j: int|
        0 <= i < j < entries.len() ==> text_less(
            (#[trigger] entries[i]).0,
            (#[trigger] entries[j]).0,
        )
}

impl View for AttributeValue {
    type V = AttrView;

    open spec fn view(&self) -> AttrView {
        attr_view(*self)
    }
}

pub open spec fn attr_views(values: Seq<AttributeValue>) -> Seq<AttrView> {
    values.map_values(|value: AttributeValue| attr_view(value))
}

/// The first entry of a dictionary under `key`.
pub open spec fn dict_lookup(entries: Seq<(Seq<char>, AttrView)>, key: Seq<char>) -> Option<AttrView>
    decreases entries.len(),
{
    if entries.len() == 0 {
        None
    } else if entries[0].0 == key {
        Some(entries[0].1)
    } else {
        dict_lookup(entries.skip(1), key)
    }
}

impl AttributeValue {
    /// A copy that says the same.
    pub fn copy(&self) -> (r: Self)
        ensures
            r@ == self@,
        decreases self,
    {
        match self {
            AttributeValue::Str(s) => AttributeValue::Str(s.clone()),
            AttributeValue::Int(n) => AttributeValue::Int(*n),
            AttributeValue::UInt(n) => AttributeValue::UInt(*n),
            AttributeValue::F32(n) => AttributeValue::F32(*n),
            AttributeValue::F64(n) => AttributeValue::F64(*n),
            AttributeValue::Bool(b) => AttributeValue::Bool(*b),
            AttributeValue::Array(items) => {
                let mut copies: Vec<AttributeValue> = Vec::new();
                let mut i: usize = 0;
                while i < items.len()
                    invariant
                        i <= items.len(),
                        *self == AttributeValue::Array(*items),
                        copies.len() == i,
                        forall|j: int| 0 <= j < i ==> attr_view(#[trigger] copies[j]) == attr_view(items[j]),
                    decreases items.len() - i,
                {
                    assert(decreases_to!(*self => self->Array_0));
                    assert(decreases_to!(self->Array_0 => self->Array_0[i as int]));
                    let item = items[i].copy();
                    copies.push(item);
                    i += 1;
                }
                let r = AttributeValue::Array(copies);
                assert(attr_view(r)->Array_0 =~= attr_view(*self)->Array_0);
                r
            },
            AttributeValue::Dict(dict) => {
                assert(decreases_to!(*self => self->Dict_0));
                AttributeValue::Dict(dict.copy())
            },
            AttributeValue::Register(register) => AttributeValue::Register(*register),
            AttributeValue::Type(ty) => AttributeValue::Type(*ty),
            AttributeValue::Block(block) => AttributeValue::Block(*block),
            AttributeValue::Value(value) => AttributeValue::Value(*value),
            AttributeValue::Predicate(p) => AttributeValue::Predicate(*p),
        }
    }

    /// Whether two attributes say the same.
    pub fn equals(&self, other: &Self) -> (r: bool)
        ensures
            r == (self@ == other@),
        decreases self,
    {
        match (self, other) {
            (AttributeValue::Str(a), AttributeValue::Str(b)) => same(a.as_str(), b.as_str()),
            (AttributeValue::Int(a), AttributeValue::Int(b)) => *a == *b,
            (AttributeValue::UInt(a), AttributeValue::UInt(b)) => *a == *b,
            (AttributeValue::F32(a), AttributeValue::F32(b)) => *a == *b,
            (AttributeValue::F64(a), AttributeValue::F64(b)) => *a == *b,
            (AttributeValue::Bool(a), AttributeValue::Bool(b)) => *a == *b,
            (AttributeValue::Array(a), AttributeValue::Array(b)) => {
                let ghost va = attr_view(*self)->Array_0;
                let ghost vb = attr_view(*other)->Array_0;
                if a.len() != b.len() {
                    assert(va.len() != vb.len());
                    return false;
                }
                let mut i: usize = 0;
                while i < a.len()
                    invariant
                        i <= a.len(),
                        a.len() == b.len(),
                        *self == AttributeValue::Array(*a),
                        *other == AttributeValue::Array(*b),
                        va == attr_view(*self)->Array_0,
                        vb == attr_view(*other)->Array_0,
                        forall|j: int| 0 <= j < i ==> va[j] == vb[j],
                    decreases a.len() - i,
                {
                    assert(va[i as int] == attr_view(a[i as int]));
                    assert(vb[i as int] == attr_view(b[i as int]));
                    if !a[i].equals(&b[i]) {
                        return false;
                    }
                    i += 1;
                }
                assert(va =~= vb);
                true
            },
            (AttributeValue::Dict(a), AttributeValue::Dict(b)) => {
                assert(decreases_to!(*self => self->Dict_0));
                a.equals(b)
            },
            (AttributeValue::Register(a), AttributeValue::Register(b)) => match (a, b) {
                (
                    RegisterAttr::Physical { class: ca, index: ia },
                    RegisterAttr::Physical { class: cb, index: ib },
                ) => same_class(*ca, *cb) && *ia == *ib,
                (
                    RegisterAttr::Assigned { value: va, class: ca, index: ia },
                    RegisterAttr::Assigned { value: vb, class: cb, index: ib },
                ) => *va == *vb && same_class(*ca, *cb) && *ia == *ib,
                _ => false,
            },
            (AttributeValue::Type(a), AttributeValue::Type(b)) => *a == *b,
            (AttributeValue::Block(a), AttributeValue::Block(b)) => *a == *b,
            (AttributeValue::Value(a), AttributeValue::Value(b)) => *a == *b,
            (AttributeValue::Predicate(a), AttributeValue::Predicate(b)) => *a == *b,
            _ => false,
        }
    }

    /// The string the attribute holds, when it holds one.
    pub fn as_str(&self) -> (r: Option<&str>)
        ensures
            r is Some <==> self@ is Str,
            r is Some ==> r->0@ == self@->Str_0,
    {
        match self {
            AttributeValue::Str(s) => Some(s.as_str()),
            _ => None,
        }
    }
}

impl DictEntry {
    /// A copy that says the same.
    pub fn copy(&self) -> (r: Self)
        ensures
            entry_view(r) == entry_view(*self),
        decreases self,
    {
        DictEntry { key: self.key.clone(), value: self.value.copy() }
    }

    fn equals(&self, other: &Self) -> (r: bool)
        ensures
            r == (entry_view(*self) == entry_view(*other)),
        decreases self,
    {
        same(self.key.as_str(), other.key.as_str()) && self.value.equals(&other.value)
    }
}

/// A dictionary's entries, as what they say.
pub open spec fn entry_views(entries: Seq<DictEntry>) -> Seq<(Seq<char>, AttrView)> {
    entries.map_values(|entry: DictEntry| entry_view(entry))
}

/// The entries with `key` saying `value`, in its place among the keys.
pub open spec fn with_entry(
    entries: Seq<(Seq<char>, AttrView)>,
    key: Seq<char>,
    value: AttrView,
) -> Seq<(Seq<char>, AttrView)>
    decreases entries.len(),
{
    if entries.len() == 0 || text_less(key, entries[0].0) {
        seq![(key, value)] + entries
    } else if entries[0].0 == key {
        seq![(key, value)] + entries.skip(1)
    } else {
        seq![entries[0]] + with_entry(entries.skip(1), key, value)
    }
}

/// What was set under a key is what a lookup of that key finds, and every other key
/// finds what it found before.
pub proof fn set_entry_is_read_back(
    entries: Seq<(Seq<char>, AttrView)>,
    key: Seq<char>,
    value: AttrView,
    other: Seq<char>,
)
    ensures
        dict_lookup(with_entry(entries, key, value), key) == Some(value),
        other != key ==> dict_lookup(with_entry(entries, key, value), other) == dict_lookup(
            entries,
            other,
        ),
    decreases entries.len(),
{
    let set = with_entry(entries, key, value);
    if entries.len() == 0 || text_less(key, entries[0].0) {
        assert(set.skip(1) =~= entries);
    } else if entries[0].0 == key {
        assert(set.skip(1) =~= entries.skip(1));
    } else {
        set_entry_is_read_back(entries.skip(1), key, value, other);
        assert(set.skip(1) =~= with_entry(entries.skip(1), key, value));
    }
}

/// Setting an entry keeps the keys in order.
pub proof fn setting_keeps_order(
    entries: Seq<(Seq<char>, AttrView)>,
    key: Seq<char>,
    value: AttrView,
)
    requires
        rises(entries),
    ensures
        rises(with_entry(entries, key, value)),
        forall|bound: Seq<char>|
            (entries.len() > 0 ==> text_less(bound, entries[0].0)) && text_less(bound, key)
                ==> text_less(bound, #[trigger] with_entry(entries, key, value)[0].0),
    decreases entries.len(),
{
    let set = with_entry(entries, key, value);
    if entries.len() == 0 {
    } else if text_less(key, entries[0].0) {
        assert forall|i: int, j: int| 0 <= i < j < set.len() implies text_less(
            (#[trigger] set[i]).0,
            (#[trigger] set[j]).0,
        ) by {
            assert(set[j] == entries[j - 1]);
            if i == 0 {
                if j > 1 {
                    text_order_is_transitive(key, entries[0].0, entries[j - 1].0);
                }
            } else {
                assert(set[i] == entries[i - 1]);
            }
        }
    } else if entries[0].0 == key {
        assert forall|i: int| 0 <= i < set.len() implies (#[trigger] set[i]).0 == entries[i].0 by {
            if i > 0 {
                assert(set[i] == entries[i]);
            }
        }
    } else {
        let rest = entries.skip(1);
        assert(rises(rest)) by {
            assert forall|i: int, j: int| 0 <= i < j < rest.len() implies text_less(
                (#[trigger] rest[i]).0,
                (#[trigger] rest[j]).0,
            ) by {
                assert(rest[i] == entries[i + 1] && rest[j] == entries[j + 1]);
            }
        }
        setting_keeps_order(rest, key, value);
        let more = with_entry(rest, key, value);
        let first = entries[0].0;
        text_order_is_total(first, key);
        assert(text_less(first, more[0].0)) by {
            if rest.len() > 0 {
                assert(rest[0] == entries[1]);
            }
        }
        assert forall|i: int, j: int| 0 <= i < j < set.len() implies text_less(
            (#[trigger] set[i]).0,
            (#[trigger] set[j]).0,
        ) by {
            assert(set[j] == more[j - 1]);
            if i == 0 {
                if j > 1 {
                    text_order_is_transitive(first, more[0].0, more[j - 1].0);
                }
            } else {
                assert(set[i] == more[i - 1]);
            }
        }
    }
}

/// Keys of which each comes before the next are in order.
pub proof fn neighbours_make_order(entries: Seq<(Seq<char>, AttrView)>)
    requires
        forall|i: int|
            0 <= i < entries.len() - 1 ==> text_less(
                (#[trigger] entries[i]).0,
                entries[i + 1].0,
            ),
    ensures
        rises(entries),
    decreases entries.len(),
{
    if entries.len() > 1 {
        let front = entries.drop_last();
        assert forall|i: int| 0 <= i < front.len() - 1 implies text_less(
            (#[trigger] front[i]).0,
            front[i + 1].0,
        ) by {
            assert(front[i] == entries[i] && front[i + 1] == entries[i + 1]);
        }
        neighbours_make_order(front);
        let n = entries.len() as int;
        assert forall|i: int, j: int| 0 <= i < j < n implies text_less(
            (#[trigger] entries[i]).0,
            (#[trigger] entries[j]).0,
        ) by {
            if j < n - 1 {
                assert(front[i] == entries[i] && front[j] == entries[j]);
            } else {
                assert(text_less(entries[n - 2].0, entries[n - 2 + 1].0));
                if i < n - 2 {
                    assert(front[i] == entries[i] && front[n - 2] == entries[n - 2]);
                    text_order_is_transitive(entries[i].0, entries[n - 2].0, entries[n - 1].0);
                }
            }
        }
    }
}

/// A key that comes after every other is set at the end.
pub proof fn last_entry_is_appended(
    entries: Seq<(Seq<char>, AttrView)>,
    key: Seq<char>,
    value: AttrView,
)
    requires
        rises(entries.push((key, value))),
    ensures
        with_entry(entries, key, value) == entries.push((key, value)),
    decreases entries.len(),
{
    let all = entries.push((key, value));
    if entries.len() > 0 {
        assert(text_less(all[0].0, all[entries.len() as int].0));
        text_order_is_total(entries[0].0, key);
        let rest = entries.skip(1);
        let more = rest.push((key, value));
        assert forall|i: int, j: int| 0 <= i < j < more.len() implies text_less(
            (#[trigger] more[i]).0,
            (#[trigger] more[j]).0,
        ) by {
            assert(more[i] == all[i + 1] && more[j] == all[j + 1]);
        }
        last_entry_is_appended(rest, key, value);
        assert(seq![entries[0]] + more =~= all);
    } else {
        assert(seq![(key, value)] + entries =~= all);
    }
}

/// `base` with the first `n` entries of `over` set, one after another.
pub open spec fn overridden(
    base: Seq<(Seq<char>, AttrView)>,
    over: Seq<(Seq<char>, AttrView)>,
    n: int,
) -> Seq<(Seq<char>, AttrView)>
    decreases n,
{
    if n <= 0 {
        base
    } else {
        with_entry(overridden(base, over, n - 1), over[n - 1].0, over[n - 1].1)
    }
}

proof fn last_entry_is_found(
    entries: Seq<(Seq<char>, AttrView)>,
    last: (Seq<char>, AttrView),
    key: Seq<char>,
)
    ensures
        dict_lookup(entries.push(last), key) == if dict_lookup(entries, key) is Some {
            dict_lookup(entries, key)
        } else if last.0 == key {
            Some(last.1)
        } else {
            None
        },
    decreases entries.len(),
{
    let all = entries.push(last);
    if entries.len() > 0 {
        last_entry_is_found(entries.skip(1), last, key);
        assert(all.skip(1) =~= entries.skip(1).push(last));
    } else {
        assert(dict_lookup(all.skip(1), key) is None);
    }
}

/// What overrides a dictionary is found key by key, and every key it does not mention
/// finds what it found before.
pub proof fn overriding_goes_key_by_key(
    base: Seq<(Seq<char>, AttrView)>,
    over: Seq<(Seq<char>, AttrView)>,
    key: Seq<char>,
)
    requires
        rises(over),
    ensures
        dict_lookup(overridden(base, over, over.len() as int), key) == match dict_lookup(
            over,
            key,
        ) {
            Some(value) => Some(value),
            None => dict_lookup(base, key),
        },
{
    overriding_goes_on(base, over, key, over.len() as int);
    assert(over.take(over.len() as int) =~= over);
}

proof fn overriding_goes_on(
    base: Seq<(Seq<char>, AttrView)>,
    over: Seq<(Seq<char>, AttrView)>,
    key: Seq<char>,
    n: int,
)
    requires
        rises(over),
        0 <= n <= over.len(),
    ensures
        dict_lookup(overridden(base, over, n), key) == match dict_lookup(over.take(n), key) {
            Some(value) => Some(value),
            None => dict_lookup(base, key),
        },
        forall|i: int|
            n <= i < over.len() ==> dict_lookup(over.take(n), (#[trigger] over[i]).0) is None,
    decreases n,
{
    if n > 0 {
        overriding_goes_on(base, over, key, n - 1);
        let last = over[n - 1];
        assert(over.take(n) =~= over.take(n - 1).push(last));
        last_entry_is_found(over.take(n - 1), last, key);
        set_entry_is_read_back(overridden(base, over, n - 1), last.0, last.1, key);
        assert forall|i: int| n <= i < over.len() implies dict_lookup(
            over.take(n),
            (#[trigger] over[i]).0,
        ) is None by {
            last_entry_is_found(over.take(n - 1), last, over[i].0);
            text_order_is_total(over[n - 1].0, over[i].0);
        }
    } else {
        assert(over.take(0) =~= Seq::empty());
    }
}

proof fn smaller_keys_are_absent(entries: Seq<(Seq<char>, AttrView)>, key: Seq<char>)
    requires
        rises(entries),
        entries.len() > 0 ==> text_less(key, entries[0].0),
    ensures
        dict_lookup(entries, key) is None,
    decreases entries.len(),
{
    if entries.len() > 0 {
        text_order_is_total(key, entries[0].0);
        let rest = entries.skip(1);
        assert forall|i: int, j: int| 0 <= i < j < rest.len() implies text_less(
            (#[trigger] rest[i]).0,
            (#[trigger] rest[j]).0,
        ) by {
            assert(rest[i] == entries[i + 1] && rest[j] == entries[j + 1]);
        }
        if rest.len() > 0 {
            assert(rest[0] == entries[1]);
            text_order_is_transitive(key, entries[0].0, rest[0].0);
        }
        smaller_keys_are_absent(rest, key);
    }
}

/// Two dictionaries that find the same under every key are the same one.
pub proof fn dictionaries_are_their_entries(
    a: Seq<(Seq<char>, AttrView)>,
    b: Seq<(Seq<char>, AttrView)>,
)
    requires
        rises(a),
        rises(b),
        forall|key: Seq<char>| #[trigger] dict_lookup(a, key) == dict_lookup(b, key),
    ensures
        a == b,
    decreases a.len(),
{
    if a.len() == 0 {
        if b.len() > 0 {
            assert(dict_lookup(a, b[0].0) == dict_lookup(b, b[0].0));
        }
        assert(a =~= b);
    } else {
        assert(dict_lookup(a, a[0].0) == dict_lookup(b, a[0].0));
        text_order_is_total(a[0].0, b[0].0);
        if text_less(a[0].0, b[0].0) {
            smaller_keys_are_absent(b, a[0].0);
        }
        assert(dict_lookup(a, b[0].0) == dict_lookup(b, b[0].0));
        if text_less(b[0].0, a[0].0) {
            smaller_keys_are_absent(a, b[0].0);
        }
        let (c, d) = (a.skip(1), b.skip(1));
        assert forall|i: int, j: int| 0 <= i < j < c.len() implies text_less(
            (#[trigger] c[i]).0,
            (#[trigger] c[j]).0,
        ) by {
            assert(c[i] == a[i + 1] && c[j] == a[j + 1]);
        }
        assert forall|i: int, j: int| 0 <= i < j < d.len() implies text_less(
            (#[trigger] d[i]).0,
            (#[trigger] d[j]).0,
        ) by {
            assert(d[i] == b[i + 1] && d[j] == b[j + 1]);
        }
        assert forall|key: Seq<char>| #[trigger] dict_lookup(c, key) == dict_lookup(d, key) by {
            assert(dict_lookup(a, key) == dict_lookup(b, key));
            if key == a[0].0 {
                if c.len() > 0 {
                    assert(c[0] == a[1]);
                }
                if d.len() > 0 {
                    assert(d[0] == b[1]);
                }
                smaller_keys_are_absent(c, key);
                smaller_keys_are_absent(d, key);
            }
        }
        dictionaries_are_their_entries(c, d);
        assert(a =~= seq![a[0]] + c);
        assert(b =~= seq![b[0]] + d);
    }
}

impl AttributeDict {
    #[verifier::type_invariant]
    spec fn in_order(&self) -> bool {
        rises(entry_views(self.entries@))
    }

    /// A dictionary that holds nothing.
    pub fn new() -> (r: Self)
        ensures
            r@ == Seq::<(Seq<char>, AttrView)>::empty(),
    {
        let r = AttributeDict { entries: Vec::new() };
        assert(r@ =~= Seq::empty());
        r
    }

    /// The dictionary of `entries`, whose keys are in order.
    pub fn from_sorted(entries: Vec<DictEntry>) -> (r: Self)
        requires
            rises(entry_views(entries@)),
        ensures
            r@ == entry_views(entries@),
    {
        let ghost views = entry_views(entries@);
        let r = AttributeDict { entries };
        assert(r@ =~= views);
        r
    }

    /// How many entries there are.
    pub fn len(&self) -> (n: usize)
        ensures
            n == self@.len(),
            rises(self@),
    {
        proof {
            use_type_invariant(self);
            assert(self@ =~= entry_views(self.entries@));
        }
        self.entries.len()
    }

    /// The key of one entry.
    pub fn key(&self, i: usize) -> (key: &str)
        requires
            i < self@.len(),
        ensures
            key@ == self@[i as int].0,
    {
        self.entries[i].key.as_str()
    }

    /// What one entry says.
    pub fn value(&self, i: usize) -> (value: &AttributeValue)
        requires
            i < self@.len(),
        ensures
            value@ == self@[i as int].1,
    {
        &self.entries[i].value
    }

    /// What is said under `key`.
    pub fn get(&self, key: &str) -> (r: Option<&AttributeValue>)
        ensures
            r is Some <==> dict_lookup(self@, key@) is Some,
            r is Some ==> Some(r->0@) == dict_lookup(self@, key@),
    {
        let ghost views = self@;
        let mut i: usize = 0;
        assert(views.skip(0) =~= views);
        while i < self.entries.len()
            invariant
                i <= self.entries.len(),
                views == self@,
                dict_lookup(views, key@) == dict_lookup(views.skip(i as int), key@),
            decreases self.entries.len() - i,
        {
            let ghost rest = views.skip(i as int);
            assert(rest[0] == entry_view(self.entries[i as int]));
            assert(rest.skip(1) =~= views.skip(i + 1));
            if same(self.entries[i].key.as_str(), key) {
                return Some(&self.entries[i].value);
            }
            i += 1;
        }
        None
    }

    /// With `key` saying `value`.
    pub fn with(self, key: &str, value: AttributeValue) -> (r: Self)
        ensures
            r@ == with_entry(self@, key@, value@),
    {
        proof {
            use_type_invariant(&self);
        }
        let ghost v = value@;
        let mut entries = self.entries;
        let ghost views = entry_views(entries@);
        assert(dict_view(self) =~= views);
        proof {
            setting_keeps_order(views, key@, v);
        }
        let n: usize = entries.len();
        let mut i: usize = 0;
        assert(views.skip(0) =~= views);
        assert(views.take(0) + with_entry(views, key@, v) =~= with_entry(views, key@, v));
        while i < n && !text_before(key, entries[i].key.as_str()) && !same(
            entries[i].key.as_str(),
            key,
        )
            invariant
                i <= n,
                n == entries.len(),
                views == entry_views(entries@),
                with_entry(views, key@, v) == views.take(i as int) + with_entry(
                    views.skip(i as int),
                    key@,
                    v,
                ),
            decreases n - i,
        {
            let ghost rest = views.skip(i as int);
            assert(rest[0] == entry_view(entries[i as int]));
            assert(rest.skip(1) =~= views.skip(i + 1));
            assert(views.take(i as int) + (seq![rest[0]] + with_entry(rest.skip(1), key@, v))
                =~= views.take(i + 1) + with_entry(views.skip(i + 1), key@, v));
            i += 1;
        }
        let ghost rest = views.skip(i as int);
        let added = DictEntry { key: key.to_owned(), value };
        assert(entry_view(added) == (key@, v));
        if i < n && same(entries[i].key.as_str(), key) {
            proof {
                assert(rest[0] == entry_view(entries@[i as int]));
                text_order_is_total(key@, key@);
            }
            entries.set(i, added);
            assert(entry_views(entries@) =~= views.take(i as int) + (seq![(key@, v)] + rest.skip(
                1,
            )));
        } else {
            if i < n {
                assert(rest[0] == entry_view(entries@[i as int]));
            }
            entries.insert(i, added);
            assert(entry_views(entries@) =~= views.take(i as int) + (seq![(key@, v)] + rest));
        }
        AttributeDict::from_sorted(entries)
    }

    /// With every entry of `over` set.
    pub fn overridden_by(self, over: &Self) -> (r: Self)
        ensures
            r@ == overridden(self@, over@, over@.len() as int),
    {
        let ghost base = self@;
        let n: usize = over.len();
        let mut r = self;
        let mut i: usize = 0;
        while i < n
            invariant
                i <= n,
                n == over@.len(),
                r@ == overridden(base, over@, i as int),
            decreases n - i,
        {
            let value = over.value(i).copy();
            r = r.with(over.key(i), value);
            i += 1;
        }
        r
    }

    /// A copy that says the same.
    pub fn copy(&self) -> (r: Self)
        ensures
            r@ == self@,
        decreases self,
    {
        proof {
            use_type_invariant(self);
        }
        let mut copies: Vec<DictEntry> = Vec::new();
        let mut i: usize = 0;
        while i < self.entries.len()
            invariant
                i <= self.entries.len(),
                copies.len() == i,
                forall|j: int|
                    0 <= j < i ==> entry_view(#[trigger] copies[j]) == entry_view(self.entries[j]),
            decreases self.entries.len() - i,
        {
            assert(decreases_to!(*self => self.entries));
            assert(decreases_to!(self.entries => self.entries[i as int]));
            let entry = self.entries[i].copy();
            copies.push(entry);
            i += 1;
        }
        assert(entry_views(copies@) =~= entry_views(self.entries@));
        assert(self@ =~= entry_views(self.entries@));
        AttributeDict::from_sorted(copies)
    }

    /// Whether two dictionaries hold the same.
    pub fn equals(&self, other: &Self) -> (r: bool)
        ensures
            r == (self@ == other@),
        decreases self,
    {
        let ghost va = self@;
        let ghost vb = other@;
        if self.entries.len() != other.entries.len() {
            assert(va.len() != vb.len());
            return false;
        }
        let mut i: usize = 0;
        while i < self.entries.len()
            invariant
                i <= self.entries.len(),
                self.entries.len() == other.entries.len(),
                va == self@,
                vb == other@,
                forall|j: int| 0 <= j < i ==> va[j] == vb[j],
            decreases self.entries.len() - i,
        {
            assert(va[i as int] == entry_view(self.entries[i as int]));
            assert(vb[i as int] == entry_view(other.entries[i as int]));
            assert(decreases_to!(*self => self.entries));
            assert(decreases_to!(self.entries => self.entries[i as int]));
            if !self.entries[i].equals(&other.entries[i]) {
                return false;
            }
            i += 1;
        }
        assert(va =~= vb);
        true
    }
}

/// An attribute under its name.
#[derive(Debug)]
pub struct NamedAttribute {
    pub name: String,
    pub value: AttributeValue,
}

impl View for NamedAttribute {
    type V = (Seq<char>, AttrView);

    open spec fn view(&self) -> (Seq<char>, AttrView) {
        (self.name@, self.value@)
    }
}

impl NamedAttribute {
    pub fn new(name: &str, value: AttributeValue) -> (r: Self)
        ensures
            r@ == (name@, value@),
    {
        NamedAttribute { name: name.to_owned(), value }
    }

    /// A copy that says the same.
    pub fn copy(&self) -> (r: Self)
        ensures
            r@ == self@,
    {
        NamedAttribute { name: self.name.clone(), value: self.value.copy() }
    }
}

/// A list of attributes, as what they say.
pub open spec fn named_views(attributes: Seq<NamedAttribute>) -> Seq<(Seq<char>, AttrView)> {
    attributes.map_values(|a: NamedAttribute| a@)
}

/// A copy of a list of attributes that says the same.
pub fn copy_attributes(attributes: &Vec<NamedAttribute>) -> (r: Vec<NamedAttribute>)
    ensures
        named_views(r@) == named_views(attributes@),
{
    let mut r: Vec<NamedAttribute> = Vec::new();
    let mut i: usize = 0;
    while i < attributes.len()
        invariant
            i <= attributes.len(),
            r.len() == i,
            forall|j: int| 0 <= j < i ==> (#[trigger] r[j])@ == attributes[j]@,
        decreases attributes.len() - i,
    {
        r.push(attributes[i].copy());
        i += 1;
    }
    assert(named_views(r@) =~= named_views(attributes@));
    r
}

/// The first attribute of a list called `name`.
pub fn find_attribute<'a>(attributes: &'a Vec<NamedAttribute>, name: &str) -> (r: Option<
    &'a AttributeValue,
>)
    ensures
        r is Some <==> dict_lookup(named_views(attributes@), name@) is Some,
        r is Some ==> Some(r->0@) == dict_lookup(named_views(attributes@), name@),
{
    let ghost views = named_views(attributes@);
    let mut i: usize = 0;
    assert(views.skip(0) =~= views);
    while i < attributes.len()
        invariant
            i <= attributes.len(),
            views == named_views(attributes@),
            dict_lookup(views, name@) == dict_lookup(views.skip(i as int), name@),
        decreases attributes.len() - i,
    {
        let ghost rest = views.skip(i as int);
        assert(rest[0] == attributes[i as int]@);
        assert(rest.skip(1) =~= views.skip(i + 1));
        if same(attributes[i].name.as_str(), name) {
            return Some(&attributes[i].value);
        }
        i += 1;
    }
    None
}

/// The list with the attribute `name` set to `value`: in place of the first
/// attribute of that name, or after all others where there is none.
pub open spec fn with_attribute(
    attributes: Seq<(Seq<char>, AttrView)>,
    name: Seq<char>,
    value: AttrView,
) -> Seq<(Seq<char>, AttrView)>
    decreases attributes.len(),
{
    if attributes.len() == 0 {
        seq![(name, value)]
    } else if attributes[0].0 == name {
        seq![(name, value)] + attributes.skip(1)
    } else {
        seq![attributes[0]] + with_attribute(attributes.skip(1), name, value)
    }
}

/// Sets the attribute `name` of a list to `value`.
pub fn set_attribute(attributes: &mut Vec<NamedAttribute>, name: &str, value: AttributeValue)
    ensures
        named_views(final(attributes)@) == with_attribute(
            named_views(old(attributes)@),
            name@,
            value@,
        ),
{
    let ghost views = named_views(attributes@);
    let ghost v = value@;
    let mut i: usize = 0;
    assert(views.skip(0) =~= views);
    assert(views.take(0) + with_attribute(views, name@, v) =~= with_attribute(views, name@, v));
    while i < attributes.len()
        invariant
            i <= attributes.len(),
            attributes@ == old(attributes)@,
            views == named_views(attributes@),
            v == value@,
            with_attribute(views, name@, v) == views.take(i as int) + with_attribute(
                views.skip(i as int),
                name@,
                v,
            ),
        decreases attributes.len() - i,
    {
        let ghost rest = views.skip(i as int);
        assert(rest[0] == attributes[i as int]@);
        assert(rest.skip(1) =~= views.skip(i + 1));
        if same(attributes[i].name.as_str(), name) {
            attributes.set(i, NamedAttribute::new(name, value));
            assert(named_views(attributes@) =~= views.take(i as int) + (seq![(name@, v)]
                + views.skip(i + 1)));
            return;
        }
        assert(views.take(i as int) + (seq![rest[0]] + with_attribute(rest.skip(1), name@, v))
            =~= views.take(i + 1) + with_attribute(views.skip(i + 1), name@, v));
        i += 1;
    }
    attributes.push(NamedAttribute::new(name, value));
    assert(named_views(attributes@) =~= views.take(i as int) + seq![(name@, v)]);
}

/// What was set under a name is what a lookup of that name finds, and every
/// other name finds what it found before.
pub proof fn set_attribute_is_read_back(
    attributes: Seq<(Seq<char>, AttrView)>,
    name: Seq<char>,
    value: AttrView,
    other: Seq<char>,
)
    ensures
        dict_lookup(with_attribute(attributes, name, value), name) == Some(value),
        other != name ==> dict_lookup(with_attribute(attributes, name, value), other)
            == dict_lookup(attributes, other),
    decreases attributes.len(),
{
    let set = with_attribute(attributes, name, value);
    if attributes.len() == 0 {
        assert(set.skip(1) =~= Seq::empty());
        assert(dict_lookup(set.skip(1), other) == None::<AttrView>);
    } else if attributes[0].0 == name {
        assert(set.skip(1) =~= attributes.skip(1));
    } else {
        set_attribute_is_read_back(attributes.skip(1), name, value, other);
        assert(set.skip(1) =~= with_attribute(attributes.skip(1), name, value));
    }
}

/// The list without any attribute called `name`.
pub open spec fn without_attribute(attributes: Seq<(Seq<char>, AttrView)>, name: Seq<char>) -> Seq<
    (Seq<char>, AttrView),
>
    decreases attributes.len(),
{
    if attributes.len() == 0 {
        attributes
    } else if attributes.last().0 == name {
        without_attribute(attributes.drop_last(), name)
    } else {
        without_attribute(attributes.drop_last(), name).push(attributes.last())
    }
}

/// The list without any attribute called `name`.
pub fn drop_attribute(attributes: &Vec<NamedAttribute>, name: &str) -> (r: Vec<NamedAttribute>)
    ensures
        named_views(r@) == without_attribute(named_views(attributes@), name@),
{
    let ghost views = named_views(attributes@);
    let mut r: Vec<NamedAttribute> = Vec::new();
    let mut i: usize = 0;
    assert(named_views(r@) =~= without_attribute(views.take(0), name@));
    while i < attributes.len()
        invariant
            i <= attributes.len(),
            views == named_views(attributes@),
            named_views(r@) =~= without_attribute(views.take(i as int), name@),
        decreases attributes.len() - i,
    {
        let ghost before = named_views(r@);
        assert(views.take(i + 1).drop_last() =~= views.take(i as int));
        assert(views.take(i + 1).last() == attributes@[i as int]@);
        if !same(attributes[i].name.as_str(), name) {
            let kept = attributes[i].copy();
            let ghost view = kept@;
            r.push(kept);
            assert(named_views(r@) =~= before.push(view));
        }
        i += 1;
    }
    assert(views.take(i as int) =~= views);
    r
}

/// A name that was dropped is not found, and every other name finds what it
/// found before.
pub proof fn dropped_attribute_is_gone(
    attributes: Seq<(Seq<char>, AttrView)>,
    name: Seq<char>,
    other: Seq<char>,
)
    ensures
        dict_lookup(without_attribute(attributes, name), name) is None,
        other != name ==> dict_lookup(without_attribute(attributes, name), other) == dict_lookup(
            attributes,
            other,
        ),
    decreases attributes.len(),
{
    if attributes.len() > 0 {
        let front = attributes.drop_last();
        dropped_attribute_is_gone(front, name, other);
        assert(attributes =~= front.push(attributes.last()));
        lookup_in_push(front, attributes.last(), other);
        lookup_in_push(without_attribute(front, name), attributes.last(), other);
        lookup_in_push(without_attribute(front, name), attributes.last(), name);
    }
}

/// What a list with one more entry finds.
pub proof fn lookup_in_push(
    attributes: Seq<(Seq<char>, AttrView)>,
    last: (Seq<char>, AttrView),
    key: Seq<char>,
)
    ensures
        dict_lookup(attributes.push(last), key) == match dict_lookup(attributes, key) {
            Some(value) => Some(value),
            None => if last.0 == key {
                Some(last.1)
            } else {
                None
            },
        },
    decreases attributes.len(),
{
    let all = attributes.push(last);
    if attributes.len() == 0 {
        assert(all.skip(1) =~= Seq::empty());
        assert(dict_lookup(all.skip(1), key) is None);
    } else {
        assert(all.skip(1) =~= attributes.skip(1).push(last));
        lookup_in_push(attributes.skip(1), last, key);
    }
}

/// A physical register as the attribute a machine op's slot names it with.
pub fn phys_attr(register: PhysReg) -> (r: AttributeValue)
    ensures
        r@ == AttrView::Physical(register.0@, register.1),
        r == AttributeValue::Register(
            (RegisterAttr::Physical { class: register.0, index: register.1 }),
        ),
{
    AttributeValue::Register(RegisterAttr::Physical { class: register.0, index: register.1 })
}

} // verus!

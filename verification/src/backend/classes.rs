//! Register classes: which registers of which file an operand can name.
use vstd::prelude::*;
use crate::text::same;

verus! {

/// How a register class's architectural view maps onto its storage element.
/// `bit_offset` is where the view starts within the element (x86 high-byte `ah`
/// begins at bit 8); `merge` preserves the element's untouched bits on write
/// (x86 8/16-bit writes) rather than zero-extending the value across the whole
/// element.
#[derive(Debug, Clone, Copy, PartialEq, Eq, Structural)]
pub struct RegisterView {
    pub bit_offset: u32,
    pub merge: bool,
}

impl Default for RegisterView {
    fn default() -> (v: Self)
        ensures
            v == (RegisterView { bit_offset: 0, merge: false }),
    {
        RegisterView { bit_offset: 0, merge: false }
    }
}

/// Architectural metadata for one register class.
#[derive(Debug)]
pub struct RegClassInfo {
    /// The number this record is known by, distinct for each record.
    pub key: u32,
    pub name: &'static str,
    /// The dialect whose description declares this class. Names the
    /// register-class type a value of this class carries (`!x86_64.GPR`).
    pub dialect: &'static str,
    /// The physical register file this class draws from. Classes that share a
    /// file (AArch64 `GPR` and `GPRsp`) name the same physical register at a
    /// given index, so the allocator treats their indices as aliases.
    pub file: &'static str,
    /// The file indices this class can encode, ascending. A class that views
    /// only part of its file lists just those indices.
    pub registers: &'static [u16],
    /// How many consecutive file indices one register of this class covers: 1
    /// for ordinary classes, 2, 4 or 8 for a vector group class.
    pub group_width: u16,
    /// Where this class's architectural view sits in its storage element.
    pub view: RegisterView,
}

/// Two class records describe the same class when their architecture does.
impl PartialEq for RegClassInfo {
    fn eq(&self, other: &Self) -> (r: bool) {
        same(self.name, other.name) && same(self.dialect, other.dialect) && same(
            self.file,
            other.file,
        ) && same_indices(self.registers, other.registers) && self.group_width == other.group_width
            && self.view == other.view
    }
}

impl vstd::std_specs::cmp::PartialEqSpecImpl for RegClassInfo {
    open spec fn obeys_eq_spec() -> bool {
        true
    }

    open spec fn eq_spec(&self, other: &Self) -> bool {
        self.name@ == other.name@ && self.dialect@ == other.dialect@ && self.file@ == other.file@
            && self.registers@ == other.registers@ && self.group_width == other.group_width
            && self.view == other.view
    }
}

fn same_indices(a: &[u16], b: &[u16]) -> (r: bool)
    ensures
        r == (a@ == b@),
{
    if a.len() != b.len() {
        return false;
    }
    let mut i: usize = 0;
    while i < a.len()
        invariant
            i <= a.len(),
            a.len() == b.len(),
            forall|j: int| 0 <= j < i ==> a@[j] == b@[j],
        decreases a.len() - i,
    {
        if a[i] != b[i] {
            assert(a@[i as int] != b@[i as int]);
            return false;
        }
        i += 1;
    }
    assert(a@ =~= b@);
    true
}

/// The name printer of a class with no assembly names.
pub fn no_register_name(_index: u16, _prefer_abi: bool) -> (r: Option<String>)
    ensures
        r is None,
{
    None
}

/// A handle to a register class. Two handles are equal when they name the same
/// class record.
#[derive(Debug, Clone, Copy)]
pub struct RegClassId(pub &'static RegClassInfo);

impl PartialEq for RegClassId {
    fn eq(&self, other: &Self) -> (r: bool) {
        self.0.key == other.0.key
    }
}

impl vstd::std_specs::cmp::PartialEqSpecImpl for RegClassId {
    open spec fn obeys_eq_spec() -> bool {
        true
    }

    open spec fn eq_spec(&self, other: &Self) -> bool {
        self.0.key == other.0.key
    }
}

/// What a class record says.
pub ghost struct ClassView {
    pub key: u32,
    pub name: Seq<char>,
    pub dialect: Seq<char>,
    pub file: Seq<char>,
    pub registers: Seq<u16>,
    pub group_width: u16,
    pub view: RegisterView,
}

impl View for RegClassId {
    type V = ClassView;

    open spec fn view(&self) -> ClassView {
        ClassView {
            key: self.0.key,
            name: self.0.name@,
            dialect: self.0.dialect@,
            file: self.0.file@,
            registers: self.0.registers@,
            group_width: self.0.group_width,
            view: self.0.view,
        }
    }
}

/// Whether two handles name records that say the same under one number.
pub fn same_class(a: RegClassId, b: RegClassId) -> (r: bool)
    ensures
        r == (a@ == b@),
{
    a == b && *a.0 == *b.0
}

/// A physical register: the class it is named through and its index in the
/// class's file.
pub type PhysReg = (RegClassId, u16);

/// The file indices one register covers.
pub ghost struct SpanView {
    pub file: Seq<char>,
    pub start: nat,
    pub width: nat,
}

/// The span of a register of class `class` at `index`.
pub open spec fn span_of(class: RegClassInfo, index: u16) -> SpanView {
    SpanView {
        file: class.file@,
        start: index as nat,
        width: if class.group_width == 0 {
            1
        } else {
            class.group_width as nat
        },
    }
}

/// Whether file index `i` of `file` is covered by `span`.
pub open spec fn covers(span: SpanView, file: Seq<char>, i: nat) -> bool {
    span.file == file && span.start <= i < span.start + span.width
}

/// Whether two physical registers share a file index.
pub open spec fn overlapping(a: PhysReg, b: PhysReg) -> bool {
    let x = span_of(*a.0.0, a.1);
    let y = span_of(*b.0.0, b.1);
    x.file == y.file && x.start < y.start + y.width && y.start < x.start + x.width
}

/// Whether both classes name the same registers at equal indices.
pub open spec fn same_view(a: RegClassInfo, b: RegClassInfo) -> bool {
    a.file@ == b.file@ && a.view.bit_offset == b.view.bit_offset && a.group_width == b.group_width
}

/// Whether every register `a` can encode is also encodable by `b` through the
/// same view.
pub open spec fn subclass(a: RegClassInfo, b: RegClassInfo) -> bool {
    same_view(a, b) && forall|i: int|
        0 <= i < a.registers@.len() ==> b.registers@.contains(#[trigger] a.registers@[i])
}

impl RegClassId {
    pub fn new(info: &'static RegClassInfo) -> (r: Self)
        ensures
            r == RegClassId(info),
    {
        RegClassId(info)
    }

    pub fn info(self) -> (r: &'static RegClassInfo)
        ensures
            *r == *self.0,
    {
        self.0
    }

    pub fn name(self) -> (r: &'static str)
        ensures
            r == self.0.name,
    {
        self.0.name
    }

    /// The dialect this class belongs to.
    pub fn dialect(self) -> (r: &'static str)
        ensures
            r == self.0.dialect,
    {
        self.0.dialect
    }

    /// The physical register file this class draws from.
    pub fn file(self) -> (r: &'static str)
        ensures
            r == self.0.file,
    {
        self.0.file
    }

    /// Whether this class can encode file index `index`.
    pub fn contains(self, index: u16) -> (r: bool)
        ensures
            r == self.0.registers@.contains(index),
    {
        let registers: &'static [u16] = self.0.registers;
        let mut i: usize = 0;
        while i < registers.len()
            invariant
                i <= registers.len(),
                registers@ == self.0.registers@,
                forall|j: int| 0 <= j < i ==> registers@[j] != index,
            decreases registers.len() - i,
        {
            if registers[i] == index {
                assert(registers@[i as int] == index);
                return true;
            }
            i += 1;
        }
        false
    }

    /// Whether both classes name the same physical registers at equal indices:
    /// one file, one view offset (an x86 high-byte class views its file at bit 8
    /// and shares no register with an offset-0 class) and one group width. Only
    /// then can a value be constrained by both at once.
    pub fn shares_view_with(self, other: RegClassId) -> (r: bool)
        ensures
            r == same_view(*self.0, *other.0),
    {
        same(self.file(), other.file()) && self.0.view.bit_offset == other.0.view.bit_offset
            && self.0.group_width == other.0.group_width
    }

    /// Whether every register this class can encode is also encodable by `other`
    /// through the same architectural view, so a value constrained to both must
    /// come from this, the narrower, class.
    pub fn is_subclass_of(self, other: RegClassId) -> (r: bool)
        ensures
            r == subclass(*self.0, *other.0),
    {
        if !self.shares_view_with(other) {
            return false;
        }
        let registers: &'static [u16] = self.0.registers;
        let mut i: usize = 0;
        while i < registers.len()
            invariant
                i <= registers.len(),
                registers@ == self.0.registers@,
                forall|j: int|
                    0 <= j < i ==> other.0.registers@.contains(#[trigger] registers@[j]),
            decreases registers.len() - i,
        {
            if !other.contains(registers[i]) {
                assert(!other.0.registers@.contains(registers@[i as int]));
                return false;
            }
            i += 1;
        }
        true
    }

    /// The span of file indices a register of this class at `index` covers: its
    /// file, start index, and group width.
    pub fn span(self, index: u16) -> (r: (&'static str, u16, u16))
        ensures
            r.0@ == span_of(*self.0, index).file,
            r.1 == span_of(*self.0, index).start,
            r.2 == span_of(*self.0, index).width,
    {
        let width: u16 = if self.0.group_width == 0 {
            1
        } else {
            self.0.group_width
        };
        (self.0.file, index, width)
    }

    /// Whether a register of this class at `index` overlaps `other` at
    /// `other_index`: same file and intersecting index spans. For width-1 classes
    /// this is file and index equality; a group register overlaps every register
    /// it covers, and aliasing classes over one file overlap at equal indices.
    pub fn overlaps(self, index: u16, other: RegClassId, other_index: u16) -> (r: bool)
        ensures
            r == overlapping((self, index), (other, other_index)),
    {
        let (fa, sa, wa) = self.span(index);
        let (fb, sb, wb) = other.span(other_index);
        same(fa, fb) && (sa as u32) < sb as u32 + wb as u32 && (sb as u32) < sa as u32 + wa as u32
    }
}

/// Whether two registers cover the same file indices.
pub fn same_span(a: &PhysReg, b: &PhysReg) -> (r: bool)
    ensures
        r == (span_of(*a.0.0, a.1) == span_of(*b.0.0, b.1)),
{
    let (fa, sa, wa) = a.0.span(a.1);
    let (fb, sb, wb) = b.0.span(b.1);
    same(fa, fb) && sa == sb && wa == wb
}

/// Overlap is symmetric, and every register overlaps itself.
pub proof fn overlap_is_symmetric(a: PhysReg, b: PhysReg)
    ensures
        overlapping(a, b) == overlapping(b, a),
        overlapping(a, a),
{
}

/// Two registers overlap exactly when some file index is covered by both.
pub proof fn overlap_is_a_shared_index(a: PhysReg, b: PhysReg)
    ensures
        overlapping(a, b) <==> exists|i: nat| #[trigger]
            covers(span_of(*a.0.0, a.1), span_of(*b.0.0, b.1).file, i) && covers(
                span_of(*b.0.0, b.1),
                span_of(*b.0.0, b.1).file,
                i,
            ),
{
    let x = span_of(*a.0.0, a.1);
    let y = span_of(*b.0.0, b.1);
    if overlapping(a, b) {
        let i = if x.start < y.start {
            y.start
        } else {
            x.start
        };
        assert(covers(x, y.file, i) && covers(y, y.file, i));
    }
}

/// A subclass of a subclass is a subclass.
pub proof fn subclass_is_transitive(a: RegClassInfo, b: RegClassInfo, c: RegClassInfo)
    requires
        subclass(a, b),
        subclass(b, c),
    ensures
        subclass(a, c),
{
    assert forall|i: int| 0 <= i < a.registers@.len() implies c.registers@.contains(
        #[trigger] a.registers@[i],
    ) by {
        assert(b.registers@.contains(a.registers@[i]));
        let j = choose|j: int| 0 <= j < b.registers@.len() && b.registers@[j] == a.registers@[i];
        assert(c.registers@.contains(b.registers@[j]));
    }
}

} // verus!

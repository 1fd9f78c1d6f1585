//! A calling convention: which registers carry what, and how the stack is laid
//! out.
use vstd::prelude::*;
use crate::backend::classes::overlapping;
use crate::backend::classes::PhysReg;
use crate::backend::classes::RegClassId;
use crate::text::same;

verus! {

/// What a value passed by register is.
#[derive(Debug, Clone, Copy, PartialEq, Eq, Structural)]
pub enum ValueKind {
    Int,
    Float,
    Vector,
}

/// How the callee-saved registers a function uses are kept.
#[derive(Debug, Clone, Copy, PartialEq, Eq, Structural)]
pub enum SaveStyle {
    /// Each in a slot of the frame.
    FrameSlots,
    /// Pushed on entry and popped on return, outside the frame.
    PushPop,
}

/// The registers values of one kind are passed in, in order.
#[derive(Debug)]
pub struct ArgSequence {
    pub kind: ValueKind,
    pub regs: Vec<PhysReg>,
}

/// How the stack is laid out.
#[derive(Debug, Clone, Copy)]
pub struct StackInfo {
    pub align: u32,
    pub slot_size: u32,
    pub save_style: SaveStyle,
}

/// A calling convention.
#[derive(Debug)]
pub struct AbiInfo {
    pub args: Vec<ArgSequence>,
    pub caller_saved: Vec<PhysReg>,
    pub callee_saved: Vec<PhysReg>,
    pub sp: PhysReg,
    pub ra: Option<PhysReg>,
    pub fp: Option<PhysReg>,
    pub reserved: Vec<PhysReg>,
    pub stack: StackInfo,
}

/// Whether some register of `list` overlaps `register`.
pub open spec fn any_overlaps(list: Seq<PhysReg>, register: PhysReg) -> bool {
    exists|i: int| 0 <= i < list.len() && overlapping(#[trigger] list[i], register)
}

/// Whether some register of `list` overlaps `register`.
pub fn some_overlaps(list: &Vec<PhysReg>, register: &PhysReg) -> (r: bool)
    ensures
        r == any_overlaps(list@, *register),
{
    let mut i: usize = 0;
    while i < list.len()
        invariant
            i <= list.len(),
            forall|j: int| 0 <= j < i ==> !overlapping(#[trigger] list@[j], *register),
        decreases list.len() - i,
    {
        if list[i].0.overlaps(list[i].1, register.0, register.1) {
            assert(overlapping(list@[i as int], *register));
            return true;
        }
        i += 1;
    }
    false
}

impl AbiInfo {
    /// Whether `register` overlaps one with a role of its own.
    pub open spec fn has_role(&self, register: PhysReg) -> bool {
        ||| overlapping(register, self.sp)
        ||| self.ra is Some && overlapping(register, self.ra->0)
        ||| self.fp is Some && overlapping(register, self.fp->0)
        ||| exists|i: int|
            0 <= i < self.reserved@.len() && overlapping(register, #[trigger] self.reserved@[i])
    }

    /// Whether `register` overlaps one with a role of its own: the stack
    /// pointer, the return address, the frame pointer, or a reserved one.
    pub fn is_role(&self, register: &PhysReg) -> (r: bool)
        ensures
            r == self.has_role(*register),
    {
        if register.0.overlaps(register.1, self.sp.0, self.sp.1) {
            return true;
        }
        if let Some(ra) = self.ra {
            if register.0.overlaps(register.1, ra.0, ra.1) {
                return true;
            }
        }
        if let Some(fp) = self.fp {
            if register.0.overlaps(register.1, fp.0, fp.1) {
                return true;
            }
        }
        let mut i: usize = 0;
        while i < self.reserved.len()
            invariant
                i <= self.reserved.len(),
                forall|j: int|
                    0 <= j < i ==> !overlapping(*register, #[trigger] self.reserved@[j]),
            decreases self.reserved.len() - i,
        {
            let role = self.reserved[i];
            if register.0.overlaps(register.1, role.0, role.1) {
                assert(overlapping(*register, self.reserved@[i as int]));
                return true;
            }
            i += 1;
        }
        assert(!self.has_role(*register));
        false
    }
}

/// The register file of a target: every allocatable (and reserved) register
/// class, keyed by the class name register operands use.
#[derive(Debug)]
pub struct RegisterInfo {
    pub classes: Vec<RegClassId>,
}

/// The position of the first class called `name`.
pub open spec fn class_named(classes: Seq<RegClassId>, name: Seq<char>) -> Option<int>
    decreases classes.len(),
{
    if classes.len() == 0 {
        None
    } else if classes[0].0.name@ == name {
        Some(0)
    } else {
        match class_named(classes.skip(1), name) {
            Some(i) => Some(i + 1),
            None => None,
        }
    }
}

/// The first sequence of registers for values of `kind`.
pub open spec fn sequence_for(args: Seq<ArgSequence>, kind: ValueKind) -> Option<int>
    decreases args.len(),
{
    if args.len() == 0 {
        None
    } else if args[0].kind == kind {
        Some(0)
    } else {
        match sequence_for(args.skip(1), kind) {
            Some(i) => Some(i + 1),
            None => None,
        }
    }
}

/// The class a value of `kind` lives in when nothing has pinned a narrower one.
pub open spec fn default_class_of(abi: AbiInfo, kind: ValueKind) -> Option<RegClassId> {
    match sequence_for(abi.args@, kind) {
        Some(i) => if abi.args@[i].regs@.len() > 0 {
            Some(abi.args@[i].regs@[0].0)
        } else {
            None
        },
        None => None,
    }
}

impl RegisterInfo {
    /// The class called `name`.
    pub fn class(&self, name: &str) -> (r: Option<RegClassId>)
        ensures
            r == match class_named(self.classes@, name@) {
                Some(i) => Some(self.classes@[i]),
                None => None,
            },
    {
        let ghost all = self.classes@;
        assert(all.skip(0) =~= all);
        let mut i: usize = 0;
        while i < self.classes.len()
            invariant
                i <= self.classes.len(),
                all == self.classes@,
                match class_named(all.skip(i as int), name@) {
                    Some(k) => class_named(all, name@) == Some(k + i),
                    None => class_named(all, name@) is None,
                },
            decreases self.classes.len() - i,
        {
            let ghost rest = all.skip(i as int);
            assert(rest[0] == all[i as int]);
            assert(rest.skip(1) =~= all.skip(i + 1));
            if same(self.classes[i].name(), name) {
                return Some(self.classes[i]);
            }
            i += 1;
        }
        assert(all.skip(i as int).len() == 0);
        None
    }

    /// Whether two physical registers overlap: same file and intersecting index
    /// spans. A group register overlaps every register it covers; aliasing
    /// classes over one file overlap at equal indices.
    pub fn phys_overlap(&self, a: &PhysReg, b: &PhysReg) -> (r: bool)
        ensures
            r == overlapping(*a, *b),
    {
        a.0.overlaps(a.1, b.0, b.1)
    }

    /// The class an integer lives in when nothing has pinned a narrower one.
    pub fn default_integer_class(&self, abi: &AbiInfo) -> (r: Option<RegClassId>)
        ensures
            r == default_class_of(*abi, ValueKind::Int),
    {
        self.default_class(abi, ValueKind::Int)
    }

    /// The class a value of `kind` lives in when no instruction naming it has
    /// pinned a narrower one: the file the ABI passes such values through.
    pub fn default_class(&self, abi: &AbiInfo, kind: ValueKind) -> (r: Option<RegClassId>)
        ensures
            r == default_class_of(*abi, kind),
    {
        let ghost all = abi.args@;
        assert(all.skip(0) =~= all);
        let mut i: usize = 0;
        while i < abi.args.len()
            invariant
                i <= abi.args.len(),
                all == abi.args@,
                match sequence_for(all.skip(i as int), kind) {
                    Some(k) => sequence_for(all, kind) == Some(k + i),
                    None => sequence_for(all, kind) is None,
                },
            decreases abi.args.len() - i,
        {
            let ghost rest = all.skip(i as int);
            assert(rest[0] == all[i as int]);
            assert(rest.skip(1) =~= all.skip(i + 1));
            if abi.args[i].kind == kind {
                return if abi.args[i].regs.len() > 0 {
                    Some(abi.args[i].regs[0].0)
                } else {
                    None
                };
            }
            i += 1;
        }
        assert(all.skip(i as int).len() == 0);
        None
    }
}

} // verus!

//! Target-independent register allocation.
//!
//! The allocator works on machine IR produced by instruction selection, where a
//! register operand is an SSA operand or result whose type is its register
//! class. From liveness it builds a cost problem: each virtual register picks
//! one of the physical registers its class allows, or a stack slot, and two
//! registers live at once may not pick overlapping ones. A solver picks; the
//! choice is read back as an assignment or as the set to spill.
//!
//! Register files come from [`RegisterInfo`]; allocation order and calling
//! convention policy come from the selected [`AbiInfo`].
use vstd::prelude::*;
use crate::backend::abi::any_overlaps;
use crate::backend::abi::default_class_of;
use crate::backend::abi::some_overlaps;
use crate::backend::abi::AbiInfo;
use crate::backend::abi::RegisterInfo;
use crate::backend::abi::ValueKind;
use crate::backend::classes::overlapping;
use crate::backend::classes::same_span;
use crate::backend::classes::span_of;
use crate::backend::classes::subclass;
use crate::backend::classes::PhysReg;
use crate::backend::classes::RegClassId;
use crate::backend::tables::entry;
use crate::backend::tables::find_key;
use crate::backend::tables::find_number;
use crate::backend::tables::get_entry;
use crate::backend::tables::key_position;
use crate::backend::tables::number_position;
use crate::text::cat2;
use crate::text::cat3;
use crate::text::debug_string;
use crate::text::debug_text;
use crate::text::decimal;
use crate::text::decimal_string;
use crate::text::same;

verus! {

/// The cost of what must not be chosen.
pub const INF_COST: u64 = 0x3fff_ffff_ffff_ffff;

/// Cost added for choosing a callee-saved register, modeling its prologue and
/// epilogue save and restore. Small, so it only breaks ties toward caller-saved
/// scratch.
pub const CALLEE_SAVED_COST: u64 = 1;

/// One choice the allocator can make for a virtual register: a concrete physical
/// register, or spilling it to a stack slot.
#[derive(Clone, Copy, Debug)]
pub enum Alternative {
    Phys(PhysReg),
    Spill,
}

/// Why no allocation was found.
#[derive(Debug)]
pub enum RegAllocError {
    /// A virtual register could not be colored or spilled (an over-constrained
    /// pre-coloring). Carries the offending vreg id.
    Infeasible(u32),
    /// A virtual register is referenced through register classes that cannot
    /// both be honored. Carries the offending vreg.
    ClassConflict(u32),
    /// The cost problem itself was malformed.
    Solver(String),
}

/// How a failed round is reported.
pub open spec fn reported(e: RegAllocError) -> Seq<char> {
    "register allocation failed: "@ + match e {
        RegAllocError::Infeasible(vreg) => "Infeasible("@ + decimal(vreg as nat) + ")"@,
        RegAllocError::ClassConflict(vreg) => "ClassConflict("@ + decimal(vreg as nat) + ")"@,
        RegAllocError::Solver(message) => "Solver("@ + debug_text(message@) + ")"@,
    }
}

impl RegAllocError {
    /// How the failure is reported. The complaint of a solver is spelled as a
    /// quoted text.
    pub fn report(&self) -> (s: String)
        ensures
            s@ == reported(*self),
    {
        let what = match self {
            RegAllocError::Infeasible(vreg) => cat3(
                "Infeasible(",
                decimal_string(*vreg as u64).as_str(),
                ")",
            ),
            RegAllocError::ClassConflict(vreg) => cat3(
                "ClassConflict(",
                decimal_string(*vreg as u64).as_str(),
                ")",
            ),
            RegAllocError::Solver(message) => cat3(
                "Solver(",
                debug_string(message.as_str()).as_str(),
                ")",
            ),
        };
        cat2("register allocation failed: ", what.as_str())
    }
}

/// The outcome of one allocation round.
#[derive(Debug)]
pub enum AllocResult {
    /// Every virtual register received a physical register.
    Assigned(Vec<(u32, PhysReg)>),
    /// The allocator chose to spill these virtual registers; the caller must
    /// insert spill code and re-run. Never empty.
    Spill(Vec<u32>),
}

/// What is known of a function's virtual registers.
#[derive(Debug)]
pub struct Liveness {
    /// The virtual registers, ascending.
    pub vregs: Vec<u32>,
    /// The class the operands of a register constrain it to.
    pub vreg_class: Vec<(u32, RegClassId)>,
    /// The registers referenced through classes that cannot both be honored.
    pub class_conflicts: Vec<u32>,
    /// The file indices every class a register is referenced through encodes.
    pub allowed_indices: Vec<(u32, Vec<u16>)>,
    /// The physical registers clobbered while a register is live.
    pub forbidden: Vec<(u32, Vec<PhysReg>)>,
    /// The pairs live at once.
    pub interference: Vec<(u32, u32)>,
}

/// Estimates what spilling a register costs.
pub trait SpillCost {
    /// The cost of spilling `vreg`.
    spec fn cost_of(&self, vreg: u32) -> u64;

    /// The cost of spilling `vreg`.
    fn cost(&self, vreg: u32) -> (c: u64)
        ensures
            c == self.cost_of(vreg),
    ;
}

/// What spilling costs: nothing may spill a protected register, and spilling
/// another costs more the more it is referenced.
#[derive(Debug)]
pub struct SpillCosts {
    pub protected: Vec<u32>,
    pub references: Vec<(u32, u32)>,
}

/// Inputs that tune one allocation round.
pub struct AllocConfig<'a, C: SpillCost> {
    pub info: &'a RegisterInfo,
    pub abi: &'a AbiInfo,
    pub liveness: &'a Liveness,
    /// Virtual registers pinned to a physical register.
    pub precolor: &'a Vec<(u32, PhysReg)>,
    /// Estimated cost of spilling a register.
    pub spill_cost: &'a C,
}

/// The cost of spilling `vreg`.
pub open spec fn spill_cost_of(costs: SpillCosts, vreg: u32) -> u64 {
    if costs.protected@.contains(vreg) {
        INF_COST
    } else {
        (10 * match entry(costs.references@, vreg) {
            Some(n) => n as int,
            None => 1,
        }) as u64
    }
}

impl SpillCost for SpillCosts {
    open spec fn cost_of(&self, vreg: u32) -> u64 {
        spill_cost_of(*self, vreg)
    }

    fn cost(&self, vreg: u32) -> (c: u64) {
        let mut i: usize = 0;
        while i < self.protected.len()
            invariant
                i <= self.protected.len(),
                forall|j: int| 0 <= j < i ==> self.protected@[j] != vreg,
            decreases self.protected.len() - i,
        {
            if self.protected[i] == vreg {
                return INF_COST;
            }
            i += 1;
        }
        let n: u32 = match get_entry(&self.references, vreg) {
            Some(n) => n,
            None => 1,
        };
        10 * n as u64
    }
}

/// How far apart the registers of a class start.
pub open spec fn class_step(class: RegClassId) -> int {
    if class.0.group_width == 0 {
        1
    } else {
        class.0.group_width as int
    }
}

/// Whether the class may hand out the index `register` names: a register of its
/// file that the class encodes, at the start of a group, and without a role.
pub open spec fn eligible(abi: AbiInfo, class: RegClassId, register: PhysReg) -> bool {
    &&& register.0.0.file@ == class.0.file@
    &&& class.0.registers@.contains(register.1)
    &&& register.1 as int % class_step(class) == 0
    &&& !abi.has_role((class, register.1))
}

/// The indices a class hands out, of the first `n` of `registers`, in order and
/// each once.
pub open spec fn eligible_indices(
    abi: AbiInfo,
    class: RegClassId,
    registers: Seq<PhysReg>,
    n: int,
) -> Seq<u16>
    decreases n,
{
    if n <= 0 {
        Seq::empty()
    } else {
        let before = eligible_indices(abi, class, registers, n - 1);
        if eligible(abi, class, registers[n - 1]) && !before.contains(registers[n - 1].1) {
            before.push(registers[n - 1].1)
        } else {
            before
        }
    }
}

/// The indices a class hands out: caller-saved registers first.
pub open spec fn handed_out(abi: AbiInfo, class: RegClassId) -> Seq<u16> {
    let all = abi.caller_saved@ + abi.callee_saved@;
    eligible_indices(abi, class, all, all.len() as int)
}

/// What a class hands out is eligible, and each index once.
pub proof fn handed_out_is_eligible(
    abi: AbiInfo,
    class: RegClassId,
    registers: Seq<PhysReg>,
    n: int,
)
    requires
        0 <= n <= registers.len(),
    ensures
        forall|k: int|
            0 <= k < eligible_indices(abi, class, registers, n).len() ==> {
                let index = #[trigger] eligible_indices(abi, class, registers, n)[k];
                class.0.registers@.contains(index) && index as int % class_step(class) == 0
                    && !abi.has_role((class, index))
            },
        eligible_indices(abi, class, registers, n).no_duplicates(),
    decreases n,
{
    if n > 0 {
        handed_out_is_eligible(abi, class, registers, n - 1);
    }
}

fn contains_index(list: &Vec<u16>, index: u16) -> (r: bool)
    ensures
        r == list@.contains(index),
{
    let mut i: usize = 0;
    while i < list.len()
        invariant
            i <= list.len(),
            forall|j: int| 0 <= j < i ==> list@[j] != index,
        decreases list.len() - i,
    {
        if list[i] == index {
            return true;
        }
        i += 1;
    }
    false
}

fn is_eligible(abi: &AbiInfo, class: RegClassId, register: &PhysReg) -> (r: bool)
    ensures
        r == eligible(*abi, class, *register),
{
    let step: u16 = if class.0.group_width == 0 {
        1
    } else {
        class.0.group_width
    };
    same(register.0.file(), class.file()) && class.contains(register.1) && register.1 % step == 0
        && !abi.is_role(&(class, register.1))
}

/// The indices a class hands out, in allocation order.
pub fn allocation_order(abi: &AbiInfo, class: RegClassId) -> (r: Vec<u16>)
    ensures
        r@ == handed_out(*abi, class),
{
    let ghost all = abi.caller_saved@ + abi.callee_saved@;
    let mut r: Vec<u16> = Vec::new();
    let mut i: usize = 0;
    while i < abi.caller_saved.len()
        invariant
            i <= abi.caller_saved.len(),
            all == abi.caller_saved@ + abi.callee_saved@,
            r@ == eligible_indices(*abi, class, all, i as int),
        decreases abi.caller_saved.len() - i,
    {
        assert(all[i as int] == abi.caller_saved@[i as int]);
        let register = abi.caller_saved[i];
        if is_eligible(abi, class, &register) && !contains_index(&r, register.1) {
            r.push(register.1);
        }
        i += 1;
    }
    let mut j: usize = 0;
    while j < abi.callee_saved.len()
        invariant
            j <= abi.callee_saved.len(),
            all == abi.caller_saved@ + abi.callee_saved@,
            r@ == eligible_indices(*abi, class, all, abi.caller_saved@.len() + j),
        decreases abi.callee_saved.len() - j,
    {
        assert(all[abi.caller_saved@.len() + j] == abi.callee_saved@[j as int]);
        let register = abi.callee_saved[j];
        if is_eligible(abi, class, &register) && !contains_index(&r, register.1) {
            r.push(register.1);
        }
        j += 1;
    }
    r
}

/// The register class a virtual register must be allocated from: the
/// intersection of the class its operands constrain it to and its pinned
/// register's class, falling back to the default class.
pub open spec fn resolved_class(
    liveness: Liveness,
    precolor: Seq<(u32, PhysReg)>,
    default_class: Option<RegClassId>,
    vreg: u32,
) -> Result<RegClassId, RegAllocError> {
    if liveness.class_conflicts@.contains(vreg) {
        Err(RegAllocError::ClassConflict(vreg))
    } else {
        match (entry(liveness.vreg_class@, vreg), entry(precolor, vreg)) {
            (Some(constraint), Some(pinned)) => if subclass(*constraint.0, *pinned.0.0) {
                Ok(constraint)
            } else {
                Ok(pinned.0)
            },
            (None, Some(pinned)) => Ok(pinned.0),
            (Some(constraint), None) => Ok(constraint),
            (None, None) => match default_class {
                Some(class) => Ok(class),
                None => Err(RegAllocError::Infeasible(vreg)),
            },
        }
    }
}

/// Determines the register class a virtual register must be allocated from.
///
/// A pin says which register the value lives in; the operand class says which
/// registers the instruction that reads it can encode. Both hold, so the narrower
/// wins: widening to the pin's class would hand out an index the encoding drops,
/// silently naming a different register. A pin that the narrow class cannot
/// encode leaves no legal color and fails allocation loudly.
pub fn resolve_class(
    liveness: &Liveness,
    precolor: &Vec<(u32, PhysReg)>,
    default_class: Option<RegClassId>,
    vreg: u32,
) -> (r: Result<RegClassId, RegAllocError>)
    ensures
        r == resolved_class(*liveness, precolor@, default_class, vreg),
{
    let mut i: usize = 0;
    while i < liveness.class_conflicts.len()
        invariant
            i <= liveness.class_conflicts.len(),
            forall|j: int| 0 <= j < i ==> liveness.class_conflicts@[j] != vreg,
        decreases liveness.class_conflicts.len() - i,
    {
        if liveness.class_conflicts[i] == vreg {
            return Err(RegAllocError::ClassConflict(vreg));
        }
        i += 1;
    }
    match (get_entry(&liveness.vreg_class, vreg), get_entry(precolor, vreg)) {
        (Some(constraint), Some(pinned)) => if constraint.is_subclass_of(pinned.0) {
            Ok(constraint)
        } else {
            Ok(pinned.0)
        },
        (None, Some(pinned)) => Ok(pinned.0),
        (Some(constraint), None) => Ok(constraint),
        (None, None) => match default_class {
            Some(class) => Ok(class),
            None => Err(RegAllocError::Infeasible(vreg)),
        },
    }
}

/// The physical alternatives of `class` among the first `n` of `indices`: those
/// every class the register is referenced through encodes.
pub open spec fn allowed_registers(
    liveness: Liveness,
    class: RegClassId,
    vreg: u32,
    indices: Seq<u16>,
    n: int,
) -> Seq<Alternative>
    decreases n,
{
    if n <= 0 {
        Seq::empty()
    } else {
        let before = allowed_registers(liveness, class, vreg, indices, n - 1);
        let allowed = match entry(liveness.allowed_indices@, vreg) {
            Some(list) => list@.contains(indices[n - 1]),
            None => true,
        };
        if allowed {
            before.push(Alternative::Phys((class, indices[n - 1])))
        } else {
            before
        }
    }
}

/// The alternatives of a virtual register: the registers its class hands out,
/// then spilling.
pub open spec fn alternatives_of(
    abi: AbiInfo,
    liveness: Liveness,
    class: RegClassId,
    vreg: u32,
) -> Seq<Alternative> {
    let indices = handed_out(abi, class);
    allowed_registers(liveness, class, vreg, indices, indices.len() as int).push(
        Alternative::Spill,
    )
}

/// The alternatives of a virtual register.
pub fn node_alternatives(abi: &AbiInfo, liveness: &Liveness, class: RegClassId, vreg: u32) -> (r:
    Vec<Alternative>)
    ensures
        r@ == alternatives_of(*abi, *liveness, class, vreg),
{
    let indices = allocation_order(abi, class);
    let at = find_key(&liveness.allowed_indices, vreg);
    let mut r: Vec<Alternative> = Vec::new();
    let mut i: usize = 0;
    while i < indices.len()
        invariant
            i <= indices.len(),
            match at {
                Some(k) => k < liveness.allowed_indices.len() && key_position(
                    liveness.allowed_indices@,
                    vreg,
                ) == Some(k as int),
                None => key_position(liveness.allowed_indices@, vreg) is None,
            },
            r@ == allowed_registers(*liveness, class, vreg, indices@, i as int),
        decreases indices.len() - i,
    {
        let allowed = match at {
            Some(k) => contains_index(&liveness.allowed_indices[k].1, indices[i]),
            None => true,
        };
        if allowed {
            r.push(Alternative::Phys((class, indices[i])));
        }
        i += 1;
    }
    r.push(Alternative::Spill);
    r
}

/// Whether a register that is clobbered while `vreg` is live overlaps `target`.
pub open spec fn is_forbidden(liveness: Liveness, vreg: u32, target: PhysReg) -> bool {
    match entry(liveness.forbidden@, vreg) {
        Some(list) => any_overlaps(list@, target),
        None => false,
    }
}

/// The cost of one alternative, honoring pre-coloring, forbidden physical
/// registers, and the callee-saved bias.
pub open spec fn alternative_cost<C: SpillCost>(
    abi: AbiInfo,
    liveness: Liveness,
    precolor: Seq<(u32, PhysReg)>,
    costs: C,
    vreg: u32,
    alternative: Alternative,
) -> u64 {
    match alternative {
        Alternative::Phys(p) => match entry(precolor, vreg) {
            Some(target) => if !is_forbidden(liveness, vreg, target) && span_of(*p.0.0, p.1)
                == span_of(*target.0.0, target.1) {
                0
            } else {
                INF_COST
            },
            None => if is_forbidden(liveness, vreg, p) {
                INF_COST
            } else if any_overlaps(abi.callee_saved@, p) {
                CALLEE_SAVED_COST
            } else {
                0
            },
        },
        Alternative::Spill => if entry(precolor, vreg) is Some {
            INF_COST
        } else {
            costs.cost_of(vreg)
        },
    }
}

/// The costs of a node's alternatives.
pub open spec fn costs_of<C: SpillCost>(
    abi: AbiInfo,
    liveness: Liveness,
    precolor: Seq<(u32, PhysReg)>,
    costs: C,
    vreg: u32,
    alternatives: Seq<Alternative>,
) -> Seq<u64> {
    Seq::new(
        alternatives.len(),
        |i: int| alternative_cost(abi, liveness, precolor, costs, vreg, alternatives[i]),
    )
}

fn forbids(liveness: &Liveness, vreg: u32, target: &PhysReg) -> (r: bool)
    ensures
        r == is_forbidden(*liveness, vreg, *target),
{
    match find_key(&liveness.forbidden, vreg) {
        Some(k) => some_overlaps(&liveness.forbidden[k].1, target),
        None => false,
    }
}

/// Builds the cost vector for one node's alternatives.
///
/// A pinned register accepts only its target, compared by physical identity so a
/// pin reached through one class matches an alternative in an aliasing class. A
/// pin on a register that is also clobbered while the value is live is
/// unsatisfiable: every alternative goes infinite so allocation fails loudly
/// instead of silently producing a clobbered value.
pub fn node_costs<C: SpillCost>(
    info: &RegisterInfo,
    alternatives: &Vec<Alternative>,
    vreg: u32,
    liveness: &Liveness,
    precolor: &Vec<(u32, PhysReg)>,
    abi: &AbiInfo,
    spill_cost: &C,
) -> (r: Vec<u64>)
    ensures
        r@ == costs_of(*abi, *liveness, precolor@, *spill_cost, vreg, alternatives@),
{
    let pinned = get_entry(precolor, vreg);
    let mut r: Vec<u64> = Vec::new();
    let mut i: usize = 0;
    while i < alternatives.len()
        invariant
            i <= alternatives.len(),
            pinned == entry(precolor@, vreg),
            r.len() == i,
            forall|j: int|
                0 <= j < i ==> #[trigger] r@[j] == alternative_cost(
                    *abi,
                    *liveness,
                    precolor@,
                    *spill_cost,
                    vreg,
                    alternatives@[j],
                ),
        decreases alternatives.len() - i,
    {
        let cost: u64 = match alternatives[i] {
            Alternative::Phys(p) => match pinned {
                Some(target) => if !forbids(liveness, vreg, &target) && same_span(&p, &target) {
                    0
                } else {
                    INF_COST
                },
                None => if forbids(liveness, vreg, &p) {
                    INF_COST
                } else if some_overlaps(&abi.callee_saved, &p) {
                    CALLEE_SAVED_COST
                } else {
                    0
                },
            },
            Alternative::Spill => if pinned.is_some() {
                INF_COST
            } else {
                spill_cost.cost(vreg)
            },
        };
        r.push(cost);
        i += 1;
    }
    assert(r@ =~= costs_of(*abi, *liveness, precolor@, *spill_cost, vreg, alternatives@));
    r
}

/// Whether two alternatives take a register the other takes too; spilling never
/// does.
pub open spec fn conflicting(a: Alternative, b: Alternative) -> bool {
    match (a, b) {
        (Alternative::Phys(p), Alternative::Phys(q)) => overlapping(p, q),
        _ => false,
    }
}

/// Whether two alternatives take different registers.
pub open spec fn differing(a: Alternative, b: Alternative) -> bool {
    match (a, b) {
        (Alternative::Phys(p), Alternative::Phys(q)) => span_of(*p.0.0, p.1) != span_of(
            *q.0.0,
            q.1,
        ),
        _ => false,
    }
}

/// The matrix that costs `cost` where `bad` holds of two alternatives.
pub open spec fn matrix(
    left: Seq<Alternative>,
    right: Seq<Alternative>,
    bad: spec_fn(Alternative, Alternative) -> bool,
    cost: u64,
) -> Seq<Seq<u64>> {
    Seq::new(
        left.len(),
        |i: int|
            Seq::new(
                right.len(),
                |j: int|
                    if bad(left[i], right[j]) {
                        cost
                    } else {
                        0
                    },
            ),
    )
}

/// The costs of two nodes live at once.
pub open spec fn interference_costs(left: Seq<Alternative>, right: Seq<Alternative>) -> Seq<
    Seq<u64>,
> {
    matrix(left, right, |a: Alternative, b: Alternative| conflicting(a, b), INF_COST)
}

/// The costs of two nodes a copy joins.
pub open spec fn affinity_costs(left: Seq<Alternative>, right: Seq<Alternative>) -> Seq<Seq<u64>> {
    matrix(left, right, |a: Alternative, b: Alternative| differing(a, b), 1)
}

/// Whether some alternatives of two nodes conflict.
pub open spec fn may_conflict(left: Seq<Alternative>, right: Seq<Alternative>) -> bool {
    exists|i: int, j: int|
        0 <= i < left.len() && 0 <= j < right.len() && conflicting(
            #[trigger] left[i],
            #[trigger] right[j],
        )
}

/// The rows of a cost matrix.
pub open spec fn rows(cells: Vec<Vec<u64>>) -> Seq<Seq<u64>> {
    cells@.map_values(|row: Vec<u64>| row@)
}

fn conflict(a: &Alternative, b: &Alternative) -> (r: bool)
    ensures
        r == conflicting(*a, *b),
{
    match (a, b) {
        (Alternative::Phys(p), Alternative::Phys(q)) => p.0.overlaps(p.1, q.0, q.1),
        _ => false,
    }
}

fn differ(a: &Alternative, b: &Alternative) -> (r: bool)
    ensures
        r == differing(*a, *b),
{
    match (a, b) {
        (Alternative::Phys(p), Alternative::Phys(q)) => !same_span(p, q),
        _ => false,
    }
}

/// Builds the interference matrix between two nodes, or `None` if their
/// alternative sets share no physical register (so they can never conflict and
/// no edge is needed). Two alternatives conflict when they overlap: the same
/// register through aliasing classes, or a group register covering another;
/// spilling never conflicts.
pub fn interference_matrix(left: &Vec<Alternative>, right: &Vec<Alternative>) -> (r: Option<
    Vec<Vec<u64>>,
>)
    ensures
        r is Some <==> may_conflict(left@, right@),
        r is Some ==> rows(r->0) == interference_costs(left@, right@),
{
    let ghost want = interference_costs(left@, right@);
    let mut cells: Vec<Vec<u64>> = Vec::new();
    let mut any = false;
    let mut i: usize = 0;
    while i < left.len()
        invariant
            i <= left.len(),
            want == interference_costs(left@, right@),
            cells.len() == i,
            forall|k: int| 0 <= k < i ==> (#[trigger] cells@[k])@ == want[k],
            any ==> may_conflict(left@, right@),
            !any ==> forall|a: int, b: int|
                0 <= a < i && 0 <= b < right@.len() ==> !conflicting(
                    #[trigger] left@[a],
                    #[trigger] right@[b],
                ),
        decreases left.len() - i,
    {
        let mut row: Vec<u64> = Vec::new();
        let mut j: usize = 0;
        while j < right.len()
            invariant
                i < left.len(),
                j <= right.len(),
                want == interference_costs(left@, right@),
                row.len() == j,
                forall|k: int| 0 <= k < j ==> #[trigger] row@[k] == want[i as int][k],
                any ==> may_conflict(left@, right@),
                !any ==> forall|a: int, b: int|
                    0 <= a < i && 0 <= b < right@.len() ==> !conflicting(
                        #[trigger] left@[a],
                        #[trigger] right@[b],
                    ),
                !any ==> forall|b: int|
                    0 <= b < j ==> !conflicting(left@[i as int], #[trigger] right@[b]),
            decreases right.len() - j,
        {
            if conflict(&left[i], &right[j]) {
                assert(conflicting(left@[i as int], right@[j as int]));
                any = true;
                row.push(INF_COST);
            } else {
                row.push(0);
            }
            j += 1;
        }
        assert(row@ =~= want[i as int]);
        cells.push(row);
        i += 1;
    }
    assert(rows(cells) =~= want);
    if any {
        Some(cells)
    } else {
        None
    }
}

/// Builds the matrix that prefers one register for both ends of a copy.
pub fn affinity_matrix(left: &Vec<Alternative>, right: &Vec<Alternative>) -> (r: Vec<Vec<u64>>)
    ensures
        rows(r) == affinity_costs(left@, right@),
{
    let ghost want = affinity_costs(left@, right@);
    let mut cells: Vec<Vec<u64>> = Vec::new();
    let mut i: usize = 0;
    while i < left.len()
        invariant
            i <= left.len(),
            want == affinity_costs(left@, right@),
            cells.len() == i,
            forall|k: int| 0 <= k < i ==> (#[trigger] cells@[k])@ == want[k],
        decreases left.len() - i,
    {
        let mut row: Vec<u64> = Vec::new();
        let mut j: usize = 0;
        while j < right.len()
            invariant
                i < left.len(),
                j <= right.len(),
                want == affinity_costs(left@, right@),
                row.len() == j,
                forall|k: int| 0 <= k < j ==> #[trigger] row@[k] == want[i as int][k],
            decreases right.len() - j,
        {
            row.push(
                if differ(&left[i], &right[j]) {
                    1
                } else {
                    0
                },
            );
            j += 1;
        }
        assert(row@ =~= want[i as int]);
        cells.push(row);
        i += 1;
    }
    assert(rows(cells) =~= want);
    cells
}

/// A cost between the choices of two nodes.
#[derive(Debug)]
pub struct Edge {
    pub left: usize,
    pub right: usize,
    pub cells: Vec<Vec<u64>>,
}

/// What an edge costs.
pub ghost struct EdgeView {
    pub left: int,
    pub right: int,
    pub cells: Seq<Seq<u64>>,
}

impl View for Edge {
    type V = EdgeView;

    open spec fn view(&self) -> EdgeView {
        EdgeView { left: self.left as int, right: self.right as int, cells: rows(self.cells) }
    }
}

/// One allocation round as a cost problem: a node per virtual register, its
/// alternatives with their costs, and the costs between nodes.
#[derive(Debug)]
pub struct AllocationProblem {
    pub vregs: Vec<u32>,
    pub alternatives: Vec<Vec<Alternative>>,
    pub costs: Vec<Vec<u64>>,
    pub edges: Vec<Edge>,
}

/// What a round's problem is.
pub ghost struct ProblemView {
    pub vregs: Seq<u32>,
    pub alternatives: Seq<Seq<Alternative>>,
    pub costs: Seq<Seq<u64>>,
    pub edges: Seq<EdgeView>,
}

impl View for AllocationProblem {
    type V = ProblemView;

    open spec fn view(&self) -> ProblemView {
        ProblemView {
            vregs: self.vregs@,
            alternatives: self.alternatives@.map_values(|a: Vec<Alternative>| a@),
            costs: self.costs@.map_values(|c: Vec<u64>| c@),
            edges: self.edges@.map_values(|e: Edge| e@),
        }
    }
}

/// The class of a virtual register, which is the default integer class where nothing
/// constrains it.
pub open spec fn class_of<C: SpillCost>(config: AllocConfig<C>, vreg: u32) -> Result<
    RegClassId,
    RegAllocError,
> {
    resolved_class(
        *config.liveness,
        config.precolor@,
        default_class_of(*config.abi, ValueKind::Int),
        vreg,
    )
}

/// The alternatives of the node at `i`.
pub open spec fn node<C: SpillCost>(config: AllocConfig<C>, i: int) -> Seq<Alternative> {
    let vreg = config.liveness.vregs@[i];
    alternatives_of(
        *config.abi,
        *config.liveness,
        class_of(config, vreg)->Ok_0,
        vreg,
    )
}

/// The costs of the node at `i`.
pub open spec fn node_cost<C: SpillCost>(config: AllocConfig<C>, i: int) -> Seq<u64> {
    costs_of(
        *config.abi,
        *config.liveness,
        config.precolor@,
        *config.spill_cost,
        config.liveness.vregs@[i],
        node(config, i),
    )
}

/// The interference edges of the first `n` pairs: only between vregs whose
/// classes share physical registers.
pub open spec fn interference_edges<C: SpillCost>(config: AllocConfig<C>, n: int) -> Seq<EdgeView>
    decreases n,
{
    if n <= 0 {
        Seq::empty()
    } else {
        let before = interference_edges(config, n - 1);
        let (u, v) = config.liveness.interference@[n - 1];
        match (
            number_position(config.liveness.vregs@, u),
            number_position(config.liveness.vregs@, v),
        ) {
            (Some(i), Some(j)) => if may_conflict(node(config, i), node(config, j)) {
                before.push(
                    EdgeView {
                        left: i,
                        right: j,
                        cells: interference_costs(node(config, i), node(config, j)),
                    },
                )
            } else {
                before
            },
            _ => before,
        }
    }
}

/// The affinity edges of the first `n` copies.
pub open spec fn affinity_edges<C: SpillCost>(
    config: AllocConfig<C>,
    affinities: Seq<(u32, u32)>,
    n: int,
) -> Seq<EdgeView>
    decreases n,
{
    if n <= 0 {
        Seq::empty()
    } else {
        let before = affinity_edges(config, affinities, n - 1);
        let (u, v) = affinities[n - 1];
        match (
            number_position(config.liveness.vregs@, u),
            number_position(config.liveness.vregs@, v),
        ) {
            (Some(i), Some(j)) => if i != j {
                before.push(
                    EdgeView {
                        left: i,
                        right: j,
                        cells: affinity_costs(node(config, i), node(config, j)),
                    },
                )
            } else {
                before
            },
            _ => before,
        }
    }
}

/// The problem of a round whose every register has a class.
pub open spec fn problem_of<C: SpillCost>(
    config: AllocConfig<C>,
    affinities: Seq<(u32, u32)>,
) -> ProblemView {
    let n = config.liveness.vregs@.len();
    ProblemView {
        vregs: config.liveness.vregs@,
        alternatives: Seq::new(n, |i: int| node(config, i)),
        costs: Seq::new(n, |i: int| node_cost(config, i)),
        edges: interference_edges(config, config.liveness.interference@.len() as int)
            + affinity_edges(config, affinities, affinities.len() as int),
    }
}

/// The first of the first `n` registers that has no class, and why.
pub open spec fn class_failure<C: SpillCost>(config: AllocConfig<C>, n: int) -> Option<
    RegAllocError,
>
    decreases n,
{
    if n <= 0 {
        None
    } else {
        match class_failure(config, n - 1) {
            Some(e) => Some(e),
            None => match class_of(config, config.liveness.vregs@[n - 1]) {
                Ok(_) => None,
                Err(e) => Some(e),
            },
        }
    }
}

/// Whether every cost is infinite.
pub open spec fn hopeless(costs: Seq<u64>) -> bool {
    forall|i: int| 0 <= i < costs.len() ==> #[trigger] costs[i] >= INF_COST
}

/// The first of the first `n` registers that can be neither colored nor spilled.
pub open spec fn cost_failure<C: SpillCost>(config: AllocConfig<C>, n: int) -> Option<RegAllocError>
    decreases n,
{
    if n <= 0 {
        None
    } else {
        match cost_failure(config, n - 1) {
            Some(e) => Some(e),
            None => if hopeless(node_cost(config, n - 1)) {
                Some(RegAllocError::Infeasible(config.liveness.vregs@[n - 1]))
            } else {
                None
            },
        }
    }
}

/// Why a round has no problem to solve.
pub open spec fn round_failure<C: SpillCost>(config: AllocConfig<C>) -> Option<RegAllocError> {
    let n = config.liveness.vregs@.len() as int;
    match class_failure(config, n) {
        Some(e) => Some(e),
        None => cost_failure(config, n),
    }
}

proof fn class_failure_stays<C: SpillCost>(config: AllocConfig<C>, n: int, m: int)
    requires
        0 < n <= m,
        class_failure(config, n) is Some,
    ensures
        class_failure(config, m) == class_failure(config, n),
    decreases m - n,
{
    if n < m {
        class_failure_stays(config, n, m - 1);
    }
}

proof fn cost_failure_stays<C: SpillCost>(config: AllocConfig<C>, n: int, m: int)
    requires
        0 < n <= m,
        cost_failure(config, n) is Some,
    ensures
        cost_failure(config, m) == cost_failure(config, n),
    decreases m - n,
{
    if n < m {
        cost_failure_stays(config, n, m - 1);
    }
}

fn all_infinite(costs: &Vec<u64>) -> (r: bool)
    ensures
        r == hopeless(costs@),
{
    let mut i: usize = 0;
    while i < costs.len()
        invariant
            i <= costs.len(),
            forall|j: int| 0 <= j < i ==> #[trigger] costs@[j] >= INF_COST,
        decreases costs.len() - i,
    {
        if costs[i] < INF_COST {
            assert(!hopeless(costs@));
            return false;
        }
        i += 1;
    }
    true
}

fn round_alternatives<C: SpillCost>(config: &AllocConfig<C>) -> (r: Result<
    Vec<Vec<Alternative>>,
    RegAllocError,
>)
    ensures
        match r {
            Ok(alternatives) => class_failure(*config, config.liveness.vregs@.len() as int) is None
                && alternatives@.len() == config.liveness.vregs@.len() && forall|i: int|
                0 <= i < alternatives@.len() ==> (#[trigger] alternatives@[i])@ == node(*config, i),
            Err(e) => class_failure(*config, config.liveness.vregs@.len() as int) == Some(e),
        },
{
    let default_class = config.info.default_integer_class(config.abi);
    let mut alternatives: Vec<Vec<Alternative>> = Vec::new();
    let mut i: usize = 0;
    while i < config.liveness.vregs.len()
        invariant
            i <= config.liveness.vregs.len(),
            default_class == default_class_of(*config.abi, ValueKind::Int),
            class_failure(*config, i as int) is None,
            alternatives.len() == i,
            forall|k: int|
                0 <= k < i ==> (#[trigger] alternatives@[k])@ == node(*config, k),
        decreases config.liveness.vregs.len() - i,
    {
        let vreg = config.liveness.vregs[i];
        match resolve_class(config.liveness, config.precolor, default_class, vreg) {
            Ok(class) => {
                alternatives.push(node_alternatives(config.abi, config.liveness, class, vreg));
            },
            Err(e) => {
                proof {
                    class_failure_stays(*config, i + 1, config.liveness.vregs@.len() as int);
                }
                return Err(e);
            },
        }
        i += 1;
    }
    Ok(alternatives)
}

fn round_costs<C: SpillCost>(
    config: &AllocConfig<C>,
    alternatives: &Vec<Vec<Alternative>>,
) -> (r: Result<
    Vec<Vec<u64>>,
    RegAllocError,
>)
    requires
        alternatives@.len() == config.liveness.vregs@.len(),
        forall|i: int|
            0 <= i < alternatives@.len() ==> (#[trigger] alternatives@[i])@ == node(*config, i),
    ensures
        match r {
            Ok(costs) => cost_failure(*config, config.liveness.vregs@.len() as int) is None
                && costs@.len() == config.liveness.vregs@.len() && forall|i: int|
                0 <= i < costs@.len() ==> (#[trigger] costs@[i])@ == node_cost(*config, i),
            Err(e) => cost_failure(*config, config.liveness.vregs@.len() as int) == Some(e),
        },
{
    let mut costs: Vec<Vec<u64>> = Vec::new();
    let mut i: usize = 0;
    while i < config.liveness.vregs.len()
        invariant
            i <= config.liveness.vregs.len(),
            alternatives@.len() == config.liveness.vregs@.len(),
            forall|i: int|
                0 <= i < alternatives@.len() ==> (#[trigger] alternatives@[i])@ == node(*config, i),
            cost_failure(*config, i as int) is None,
            costs.len() == i,
            forall|k: int| 0 <= k < i ==> (#[trigger] costs@[k])@ == node_cost(*config, k),
        decreases config.liveness.vregs.len() - i,
    {
        let vreg = config.liveness.vregs[i];
        assert(alternatives@[i as int]@ == node(*config, i as int));
        let row = node_costs(
            config.info,
            &alternatives[i],
            vreg,
            config.liveness,
            config.precolor,
            config.abi,
            config.spill_cost,
        );
        if all_infinite(&row) {
            proof {
                cost_failure_stays(*config, i + 1, config.liveness.vregs@.len() as int);
            }
            return Err(RegAllocError::Infeasible(vreg));
        }
        costs.push(row);
        i += 1;
    }
    Ok(costs)
}

fn round_edges<C: SpillCost>(
    config: &AllocConfig<C>,
    affinities: &Vec<(u32, u32)>,
    alternatives: &Vec<Vec<Alternative>>,
) -> (edges: Vec<Edge>)
    requires
        alternatives@.len() == config.liveness.vregs@.len(),
        forall|i: int|
            0 <= i < alternatives@.len() ==> (#[trigger] alternatives@[i])@ == node(*config, i),
    ensures
        edges@.map_values(|e: Edge| e@) == interference_edges(
            *config,
            config.liveness.interference@.len() as int,
        ) + affinity_edges(*config, affinities@, affinities@.len() as int),
{
    let mut edges: Vec<Edge> = Vec::new();
    let pairs = &config.liveness.interference;
    assert(edges@.map_values(|e: Edge| e@) =~= interference_edges(*config, 0));
    let mut i: usize = 0;
    while i < pairs.len()
        invariant
            i <= pairs.len(),
            pairs@ == config.liveness.interference@,
            alternatives@.len() == config.liveness.vregs@.len(),
            forall|i: int|
                0 <= i < alternatives@.len() ==> (#[trigger] alternatives@[i])@ == node(*config, i),
            edges@.map_values(|e: Edge| e@) =~= interference_edges(*config, i as int),
        decreases pairs.len() - i,
    {
        let (u, v) = pairs[i];
        let ghost before = edges@.map_values(|e: Edge| e@);
        if let (Some(left), Some(right)) = (
            find_number(&config.liveness.vregs, u),
            find_number(&config.liveness.vregs, v),
        ) {
            assert(alternatives@[left as int]@ == node(*config, left as int));
            assert(alternatives@[right as int]@ == node(*config, right as int));
            if let Some(cells) = interference_matrix(&alternatives[left], &alternatives[right]) {
                let edge = Edge { left, right, cells };
                let ghost added = edge@;
                edges.push(edge);
                assert(edges@.map_values(|e: Edge| e@) =~= before.push(added));
            }
        }
        i += 1;
    }
    let ghost front = edges@.map_values(|e: Edge| e@);
    assert(front =~= front + affinity_edges(*config, affinities@, 0));
    let mut i: usize = 0;
    while i < affinities.len()
        invariant
            i <= affinities.len(),
            alternatives@.len() == config.liveness.vregs@.len(),
            forall|i: int|
                0 <= i < alternatives@.len() ==> (#[trigger] alternatives@[i])@ == node(*config, i),
            edges@.map_values(|e: Edge| e@) =~= front + affinity_edges(
                *config,
                affinities@,
                i as int,
            ),
        decreases affinities.len() - i,
    {
        let (u, v) = affinities[i];
        let ghost before = edges@.map_values(|e: Edge| e@);
        if let (Some(left), Some(right)) = (
            find_number(&config.liveness.vregs, u),
            find_number(&config.liveness.vregs, v),
        ) {
            assert(alternatives@[left as int]@ == node(*config, left as int));
            assert(alternatives@[right as int]@ == node(*config, right as int));
            if left != right {
                let cells = affinity_matrix(&alternatives[left], &alternatives[right]);
                let edge = Edge { left, right, cells };
                let ghost added = edge@;
                edges.push(edge);
                assert(edges@.map_values(|e: Edge| e@) =~= before.push(added));
            }
        }
        i += 1;
    }
    edges
}

/// Builds the cost problem of one allocation round.
///
/// Each virtual register becomes a node whose alternatives are the allocatable
/// physical registers of its class plus a spill alternative; interference edges
/// forbid two simultaneously live registers from sharing one, and an affinity
/// makes it cheaper for the ends of a copy to share one.
pub fn allocation_problem<C: SpillCost>(
    config: &AllocConfig<C>,
    affinities: &Vec<(u32, u32)>,
) -> (r: Result<
    AllocationProblem,
    RegAllocError,
>)
    ensures
        match r {
            Ok(problem) => round_failure(*config) is None && problem@ == problem_of(
                *config,
                affinities@,
            ),
            Err(e) => round_failure(*config) == Some(e),
        },
{
    let alternatives = match round_alternatives(config) {
        Ok(alternatives) => alternatives,
        Err(e) => {
            return Err(e);
        },
    };
    let costs = match round_costs(config, &alternatives) {
        Ok(costs) => costs,
        Err(e) => {
            return Err(e);
        },
    };
    let edges = round_edges(config, affinities, &alternatives);
    let mut vregs: Vec<u32> = Vec::new();
    let mut i: usize = 0;
    while i < config.liveness.vregs.len()
        invariant
            i <= config.liveness.vregs.len(),
            vregs@ =~= config.liveness.vregs@.take(i as int),
        decreases config.liveness.vregs.len() - i,
    {
        vregs.push(config.liveness.vregs[i]);
        i += 1;
    }
    assert(vregs@ =~= config.liveness.vregs@);
    let problem = AllocationProblem { vregs, alternatives, costs, edges };
    proof {
        let want = problem_of(*config, affinities@);
        assert(problem@.alternatives =~= want.alternatives);
        assert(problem@.costs =~= want.costs);
        assert(problem@.edges =~= want.edges);
    }
    Ok(problem)
}

/// Whether `choices` picks an alternative for every node.
pub open spec fn picks(problem: ProblemView, choices: Seq<usize>) -> bool {
    choices.len() == problem.vregs.len() && forall|i: int|
        0 <= i < choices.len() ==> #[trigger] choices[i] < problem.alternatives[i].len()
}

/// The registers the first `n` nodes were given.
pub open spec fn assigned(problem: ProblemView, choices: Seq<usize>, n: int) -> Seq<(u32, PhysReg)>
    decreases n,
{
    if n <= 0 {
        Seq::empty()
    } else {
        let before = assigned(problem, choices, n - 1);
        match problem.alternatives[n - 1][choices[n - 1] as int] {
            Alternative::Phys(p) => before.push((problem.vregs[n - 1], p)),
            Alternative::Spill => before,
        }
    }
}

/// The nodes among the first `n` that were spilled.
pub open spec fn spilled(problem: ProblemView, choices: Seq<usize>, n: int) -> Seq<u32>
    decreases n,
{
    if n <= 0 {
        Seq::empty()
    } else {
        let before = spilled(problem, choices, n - 1);
        match problem.alternatives[n - 1][choices[n - 1] as int] {
            Alternative::Phys(_) => before,
            Alternative::Spill => before.push(problem.vregs[n - 1]),
        }
    }
}

/// Whether `result` is what `choices` says of the nodes: where any is spilled,
/// the spilled ones, else every node's register.
pub open spec fn reads_back(problem: ProblemView, choices: Seq<usize>, result: AllocResult) -> bool {
    let n = problem.vregs.len() as int;
    if spilled(problem, choices, n).len() == 0 {
        result is Assigned && result->Assigned_0@ == assigned(problem, choices, n)
    } else {
        result is Spill && result->Spill_0@ == spilled(problem, choices, n)
    }
}

/// Reads a solver's choices back.
pub fn read_choices(problem: &AllocationProblem, choices: &Vec<usize>) -> (r: AllocResult)
    requires
        problem@.alternatives.len() == problem@.vregs.len(),
        picks(problem@, choices@),
    ensures
        reads_back(problem@, choices@, r),
{
    let mut assignment: Vec<(u32, PhysReg)> = Vec::new();
    let mut left: Vec<u32> = Vec::new();
    let mut i: usize = 0;
    while i < problem.vregs.len()
        invariant
            i <= problem.vregs.len(),
            problem@.alternatives.len() == problem@.vregs.len(),
            picks(problem@, choices@),
            assignment@ == assigned(problem@, choices@, i as int),
            left@ == spilled(problem@, choices@, i as int),
        decreases problem.vregs.len() - i,
    {
        assert(choices@[i as int] < problem@.alternatives[i as int].len());
        assert(problem@.alternatives[i as int] == problem.alternatives@[i as int]@);
        match problem.alternatives[i][choices[i]] {
            Alternative::Phys(p) => {
                assignment.push((problem.vregs[i], p));
            },
            Alternative::Spill => {
                left.push(problem.vregs[i]);
            },
        }
        i += 1;
    }
    if left.len() == 0 {
        AllocResult::Assigned(assignment)
    } else {
        AllocResult::Spill(left)
    }
}

/// Solves one register-allocation round over the analyzed function, where
/// `solution` is what a solver answered to its [`allocation_problem`].
///
/// If the choices spill any register, the spilled set is returned so the caller
/// can lower it and retry.
pub fn allocate<C: SpillCost>(
    config: &AllocConfig<C>,
    solution: Result<Vec<usize>, String>,
) -> (r: Result<
    AllocResult,
    RegAllocError,
>)
    requires
        round_failure(*config) is None && solution is Ok ==> picks(
            problem_of(*config, Seq::empty()),
            solution->Ok_0@,
        ),
    ensures
        match round_failure(*config) {
            Some(e) => r == Err::<AllocResult, RegAllocError>(e),
            None => match solution {
                Ok(choices) => r is Ok && reads_back(
                    problem_of(*config, Seq::empty()),
                    choices@,
                    r->Ok_0,
                ),
                Err(message) => r is Err && r->Err_0 is Solver && r->Err_0->Solver_0@ == message@,
            },
        },
{
    let none: Vec<(u32, u32)> = Vec::new();
    assert(none@ =~= Seq::<(u32, u32)>::empty());
    allocate_with_affinities(config, &none, solution)
}

/// [`allocate`], with the copies whose ends should share a register.
pub fn allocate_with_affinities<C: SpillCost>(
    config: &AllocConfig<C>,
    affinities: &Vec<(u32, u32)>,
    solution: Result<Vec<usize>, String>,
) -> (r: Result<AllocResult, RegAllocError>)
    requires
        round_failure(*config) is None && solution is Ok ==> picks(
            problem_of(*config, affinities@),
            solution->Ok_0@,
        ),
    ensures
        match round_failure(*config) {
            Some(e) => r == Err::<AllocResult, RegAllocError>(e),
            None => match solution {
                Ok(choices) => r is Ok && reads_back(
                    problem_of(*config, affinities@),
                    choices@,
                    r->Ok_0,
                ),
                Err(message) => r is Err && r->Err_0 is Solver && r->Err_0->Solver_0@ == message@,
            },
        },
{
    let problem = match allocation_problem(config, affinities) {
        Ok(problem) => problem,
        Err(e) => {
            return Err(e);
        },
    };
    match solution {
        Ok(choices) => Ok(read_choices(&problem, &choices)),
        Err(message) => Err(RegAllocError::Solver(message)),
    }
}

/// Whether no choice and no pair of choices costs an infinite amount.
pub open spec fn feasible(problem: ProblemView, choices: Seq<usize>) -> bool {
    &&& picks(problem, choices)
    &&& forall|i: int|
        #![trigger problem.costs[i]]
        0 <= i < problem.vregs.len() ==> problem.costs[i][choices[i] as int] < INF_COST
    &&& forall|k: int|
        #![trigger problem.edges[k]]
        0 <= k < problem.edges.len() ==> problem.edges[k].cells[
            choices[problem.edges[k].left] as int
        ][choices[problem.edges[k].right] as int] < INF_COST
}

/// What a node was given.
pub open spec fn chosen(problem: ProblemView, choices: Seq<usize>, i: int) -> Alternative {
    problem.alternatives[i][choices[i] as int]
}

/// A feasible choice gives no two registers that are live at once overlapping
/// physical registers.
pub proof fn interfering_registers_do_not_overlap<C: SpillCost>(
    config: AllocConfig<C>,
    affinities: Seq<(u32, u32)>,
    choices: Seq<usize>,
    k: int,
)
    requires
        feasible(problem_of(config, affinities), choices),
        0 <= k < config.liveness.interference@.len(),
        number_position(config.liveness.vregs@, config.liveness.interference@[k].0) is Some,
        number_position(config.liveness.vregs@, config.liveness.interference@[k].1) is Some,
    ensures
        ({
            let problem = problem_of(config, affinities);
            let (u, v) = config.liveness.interference@[k];
            let i = number_position(config.liveness.vregs@, u)->0;
            let j = number_position(config.liveness.vregs@, v)->0;
            !conflicting(chosen(problem, choices, i), chosen(problem, choices, j))
        }),
{
    let problem = problem_of(config, affinities);
    let (u, v) = config.liveness.interference@[k];
    let i = number_position(config.liveness.vregs@, u)->0;
    let j = number_position(config.liveness.vregs@, v)->0;
    crate::context::edits::first_position_is_first(config.liveness.vregs@, u);
    crate::context::edits::first_position_is_first(config.liveness.vregs@, v);
    let n = config.liveness.interference@.len() as int;
    let a = node(config, i);
    let b = node(config, j);
    assert(problem.alternatives[i] == a);
    assert(problem.alternatives[j] == b);
    assert(choices[i] < problem.alternatives[i].len());
    assert(choices[j] < problem.alternatives[j].len());
    if may_conflict(a, b) {
        let e = EdgeView { left: i, right: j, cells: interference_costs(a, b) };
        edge_is_listed(config, k, n);
        let at = choose|at: int|
            0 <= at < interference_edges(config, n).len() && interference_edges(config, n)[at] == e;
        assert(problem.edges[at] == e);
        let cell = e.cells[choices[i] as int][choices[j] as int];
        assert(cell < INF_COST);
        assert(cell == if conflicting(a[choices[i] as int], b[choices[j] as int]) {
            INF_COST
        } else {
            0
        });
    } else {
        assert(!conflicting(a[choices[i] as int], b[choices[j] as int]));
    }
}

proof fn edge_is_listed<C: SpillCost>(config: AllocConfig<C>, k: int, n: int)
    requires
        0 <= k < n <= config.liveness.interference@.len(),
        number_position(config.liveness.vregs@, config.liveness.interference@[k].0) is Some,
        number_position(config.liveness.vregs@, config.liveness.interference@[k].1) is Some,
        ({
            let (u, v) = config.liveness.interference@[k];
            let i = number_position(config.liveness.vregs@, u)->0;
            let j = number_position(config.liveness.vregs@, v)->0;
            may_conflict(node(config, i), node(config, j))
        }),
    ensures
        ({
            let (u, v) = config.liveness.interference@[k];
            let i = number_position(config.liveness.vregs@, u)->0;
            let j = number_position(config.liveness.vregs@, v)->0;
            let e = EdgeView {
                left: i,
                right: j,
                cells: interference_costs(node(config, i), node(config, j)),
            };
            exists|at: int|
                0 <= at < interference_edges(config, n).len() && #[trigger] interference_edges(
                    config,
                    n,
                )[at] == e
        }),
    decreases n,
{
    let (u, v) = config.liveness.interference@[k];
    let i = number_position(config.liveness.vregs@, u)->0;
    let j = number_position(config.liveness.vregs@, v)->0;
    let e = EdgeView {
        left: i,
        right: j,
        cells: interference_costs(node(config, i), node(config, j)),
    };
    let all = interference_edges(config, n);
    let before = interference_edges(config, n - 1);
    if k == n - 1 {
        assert(all == before.push(e));
        assert(all[before.len() as int] == e);
    } else {
        edge_is_listed(config, k, n - 1);
        let at = choose|at: int|
            0 <= at < interference_edges(config, n - 1).len() && #[trigger] interference_edges(
                config,
                n - 1,
            )[at] == e;
        assert(all[at] == before[at]);
    }
}

/// A feasible choice gives a pinned register the register it is pinned to, and
/// gives no register one that is clobbered while it is live.
pub proof fn choices_honor_pins_and_clobbers<C: SpillCost>(
    config: AllocConfig<C>,
    affinities: Seq<(u32, u32)>,
    choices: Seq<usize>,
    i: int,
)
    requires
        feasible(problem_of(config, affinities), choices),
        0 <= i < config.liveness.vregs@.len(),
    ensures
        ({
            let vreg = config.liveness.vregs@[i];
            match chosen(problem_of(config, affinities), choices, i) {
                Alternative::Phys(p) => match entry(config.precolor@, vreg) {
                    Some(target) => span_of(*p.0.0, p.1) == span_of(*target.0.0, target.1)
                        && !is_forbidden(*config.liveness, vreg, target),
                    None => !is_forbidden(*config.liveness, vreg, p),
                },
                Alternative::Spill => entry(config.precolor@, vreg) is None,
            }
        }),
{
    let problem = problem_of(config, affinities);
    assert(choices[i] < problem.alternatives[i].len());
    assert(problem.costs[i][choices[i] as int] < INF_COST);
    assert(problem.costs[i] == node_cost(config, i));
}

} // verus!

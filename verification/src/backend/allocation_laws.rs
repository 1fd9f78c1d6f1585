//! What register allocation promises: which registers a class hands out and in
//! which order, what a node may pick and what picking it costs, which choices
//! are feasible, and how they are read back.
use vstd::prelude::*;
use crate::backend::abi::any_overlaps;
use crate::backend::abi::AbiInfo;
use crate::backend::classes::overlapping;
use crate::backend::classes::span_of;
use crate::backend::classes::PhysReg;
use crate::backend::classes::RegClassId;
use crate::backend::regalloc::affinity_costs;
use crate::backend::regalloc::affinity_edges;
use crate::backend::regalloc::allowed_registers;
use crate::backend::regalloc::alternative_cost;
use crate::backend::regalloc::alternatives_of;
use crate::backend::regalloc::assigned;
use crate::backend::regalloc::eligible;
use crate::backend::regalloc::eligible_indices;
use crate::backend::regalloc::feasible;
use crate::backend::regalloc::handed_out;
use crate::backend::regalloc::handed_out_is_eligible;
use crate::backend::regalloc::interference_costs;
use crate::backend::regalloc::interference_edges;
use crate::backend::regalloc::interfering_registers_do_not_overlap;
use crate::backend::regalloc::is_forbidden;
use crate::backend::regalloc::node;
use crate::backend::regalloc::node_cost;
use crate::backend::regalloc::picks;
use crate::backend::regalloc::problem_of;
use crate::backend::regalloc::reads_back;
use crate::backend::regalloc::spill_cost_of;
use crate::backend::regalloc::spilled;
use crate::backend::regalloc::AllocConfig;
use crate::backend::regalloc::AllocResult;
use crate::backend::regalloc::Alternative;
use crate::backend::regalloc::INF_COST;
use crate::backend::regalloc::Liveness;
use crate::backend::regalloc::ProblemView;
use crate::backend::regalloc::SpillCost;
use crate::backend::regalloc::SpillCosts;
use crate::backend::tables::entry;
use crate::backend::tables::number_position;
use crate::context::edits::first_position_is_first;

verus! {

/// Whether `register` gives the class its index: it lies in the class's file,
/// the class encodes the index, a group of the class starts there, and the
/// class's register of that index shares nothing with the stack pointer, the
/// return address, the frame pointer or a reserved register.
pub open spec fn gives(abi: AbiInfo, class: RegClassId, register: PhysReg) -> bool {
    let own = (class, register.1);
    &&& register.0.0.file@ == class.0.file@
    &&& class.0.registers@.contains(register.1)
    &&& class.0.group_width >= 2 ==> register.1 as int % class.0.group_width as int == 0
    &&& !overlapping(own, abi.sp)
    &&& abi.ra is Some ==> !overlapping(own, abi.ra->0)
    &&& abi.fp is Some ==> !overlapping(own, abi.fp->0)
    &&& forall|k: int|
        0 <= k < abi.reserved@.len() ==> !overlapping(own, #[trigger] abi.reserved@[k])
}

proof fn giving_is_eligibility(abi: AbiInfo, class: RegClassId, register: PhysReg)
    ensures
        eligible(abi, class, register) == gives(abi, class, register),
{
}

proof fn eligible_indices_hold(abi: AbiInfo, class: RegClassId, registers: Seq<PhysReg>, n: int)
    requires
        0 <= n <= registers.len(),
    ensures
        forall|i: u16| #[trigger]
            eligible_indices(abi, class, registers, n).contains(i) <==> exists|j: int|
                0 <= j < n && (#[trigger] registers[j]).1 == i && gives(abi, class, registers[j]),
    decreases n,
{
    let all = eligible_indices(abi, class, registers, n);
    if n > 0 {
        let before = eligible_indices(abi, class, registers, n - 1);
        let last = registers[n - 1];
        eligible_indices_hold(abi, class, registers, n - 1);
        giving_is_eligibility(abi, class, last);
        assert forall|i: u16| #[trigger] all.contains(i) implies exists|j: int|
            0 <= j < n && (#[trigger] registers[j]).1 == i && gives(abi, class, registers[j]) by {
            if before.contains(i) {
            } else {
                assert(all == before.push(last.1));
                assert(i == last.1);
                assert(registers[n - 1].1 == i);
            }
        }
        assert forall|i: u16|
            (exists|j: int|
                0 <= j < n && (#[trigger] registers[j]).1 == i && gives(
                    abi,
                    class,
                    registers[j],
                )) implies #[trigger] all.contains(i) by {
            let j = choose|j: int|
                0 <= j < n && (#[trigger] registers[j]).1 == i && gives(abi, class, registers[j]);
            if before.contains(i) {
                let at = choose|at: int| 0 <= at < before.len() && before[at] == i;
                assert(all[at] == i);
            } else {
                assert(j == n - 1);
                assert(all == before.push(i));
                assert(all[before.len() as int] == i);
            }
        }
    }
}

/// A class hands out an index if and only if a register the convention lists,
/// caller-saved or callee-saved, gives it, and hands it out once.
pub proof fn every_given_index_is_handed_out(abi: AbiInfo, class: RegClassId)
    ensures
        forall|i: u16| #[trigger]
            handed_out(abi, class).contains(i) <==> exists|register: PhysReg|
                {
                    &&& #[trigger] abi.caller_saved@.contains(register)
                        || abi.callee_saved@.contains(register)
                    &&& register.1 == i
                    &&& gives(abi, class, register)
                },
        handed_out(abi, class).no_duplicates(),
{
    let all = abi.caller_saved@ + abi.callee_saved@;
    let n = all.len() as int;
    handed_out_is_eligible(abi, class, all, n);
    eligible_indices_hold(abi, class, all, n);
    assert forall|i: u16| #[trigger]
        handed_out(abi, class).contains(i) <==> exists|register: PhysReg|
            {
                &&& #[trigger] abi.caller_saved@.contains(register)
                    || abi.callee_saved@.contains(register)
                &&& register.1 == i
                &&& gives(abi, class, register)
            } by {
        assert(handed_out(abi, class) == eligible_indices(abi, class, all, n));
        if handed_out(abi, class).contains(i) {
            assert(eligible_indices(abi, class, all, n).contains(i));
            let j = choose|j: int|
                0 <= j < n && (#[trigger] all[j]).1 == i && gives(abi, class, all[j]);
            let register = all[j];
            if j < abi.caller_saved@.len() {
                assert(abi.caller_saved@[j] == register);
            } else {
                assert(abi.callee_saved@[j - abi.caller_saved@.len()] == register);
            }
            assert(abi.caller_saved@.contains(register) || abi.callee_saved@.contains(register));
        }
        if exists|register: PhysReg|
            {
                &&& #[trigger] abi.caller_saved@.contains(register)
                    || abi.callee_saved@.contains(register)
                &&& register.1 == i
                &&& gives(abi, class, register)
            } {
            let register = choose|register: PhysReg|
                {
                    &&& #[trigger] abi.caller_saved@.contains(register)
                        || abi.callee_saved@.contains(register)
                    &&& register.1 == i
                    &&& gives(abi, class, register)
                };
            if abi.caller_saved@.contains(register) {
                let k = choose|k: int|
                    0 <= k < abi.caller_saved@.len() && abi.caller_saved@[k] == register;
                assert(all[k] == register);
            } else {
                let k = choose|k: int|
                    0 <= k < abi.callee_saved@.len() && abi.callee_saved@[k] == register;
                assert(all[abi.caller_saved@.len() + k] == register);
            }
            assert(eligible_indices(abi, class, all, n).contains(i));
        }
    }
}

proof fn eligible_indices_keep_order(
    abi: AbiInfo,
    class: RegClassId,
    registers: Seq<PhysReg>,
    n: int,
    a: int,
    b: int,
    j: int,
)
    requires
        0 <= n <= registers.len(),
        0 <= a < b < eligible_indices(abi, class, registers, n).len(),
        0 <= j < n,
        registers[j].1 == eligible_indices(abi, class, registers, n)[b],
        gives(abi, class, registers[j]),
    ensures
        exists|i: int|
            0 <= i < j && (#[trigger] registers[i]).1 == eligible_indices(
                abi,
                class,
                registers,
                n,
            )[a] && gives(abi, class, registers[i]),
    decreases n,
{
    let all = eligible_indices(abi, class, registers, n);
    let before = eligible_indices(abi, class, registers, n - 1);
    giving_is_eligibility(abi, class, registers[n - 1]);
    handed_out_is_eligible(abi, class, registers, n);
    eligible_indices_hold(abi, class, registers, n - 1);
    if b < before.len() {
        assert(all[b] == before[b] && all[a] == before[a]);
        if j < n - 1 {
            eligible_indices_keep_order(abi, class, registers, n - 1, a, b, j);
        } else {
            assert(before.contains(before[a]));
        }
    } else {
        assert(all == before.push(registers[n - 1].1));
        assert(!before.contains(all[b]));
        assert(j == n - 1);
        assert(all[a] == before[a]);
        assert(before.contains(before[a]));
    }
}

/// The indices come in the order in which the convention first gives them,
/// caller-saved registers before callee-saved ones: before any register that
/// gives a later index stands one that gives an earlier index.
pub proof fn indices_come_in_the_listed_order(
    abi: AbiInfo,
    class: RegClassId,
    a: int,
    b: int,
    j: int,
)
    requires
        0 <= a < b < handed_out(abi, class).len(),
        0 <= j < abi.caller_saved@.len() + abi.callee_saved@.len(),
        (abi.caller_saved@ + abi.callee_saved@)[j].1 == handed_out(abi, class)[b],
        gives(abi, class, (abi.caller_saved@ + abi.callee_saved@)[j]),
    ensures
        exists|i: int|
            {
                &&& 0 <= i < j
                &&& (#[trigger] (abi.caller_saved@ + abi.callee_saved@)[i]).1 == handed_out(
                    abi,
                    class,
                )[a]
                &&& gives(abi, class, (abi.caller_saved@ + abi.callee_saved@)[i])
            },
{
    let all = abi.caller_saved@ + abi.callee_saved@;
    eligible_indices_keep_order(abi, class, all, all.len() as int, a, b, j);
}

proof fn allowed_registers_hold(
    liveness: Liveness,
    class: RegClassId,
    vreg: u32,
    indices: Seq<u16>,
    n: int,
)
    requires
        0 <= n <= indices.len(),
    ensures
        forall|k: int|
            #![trigger allowed_registers(liveness, class, vreg, indices, n)[k]]
            0 <= k < allowed_registers(liveness, class, vreg, indices, n).len() ==> allowed_registers(
                liveness,
                class,
                vreg,
                indices,
                n,
            )[k] is Phys,
        forall|p: PhysReg| #[trigger]
            allowed_registers(liveness, class, vreg, indices, n).contains(Alternative::Phys(p))
                <==> p.0 == class && indices.take(n).contains(p.1) && (entry(
                liveness.allowed_indices@,
                vreg,
            ) is Some ==> entry(liveness.allowed_indices@, vreg)->0@.contains(p.1)),
    decreases n,
{
    let all = allowed_registers(liveness, class, vreg, indices, n);
    if n > 0 {
        let before = allowed_registers(liveness, class, vreg, indices, n - 1);
        let last = indices[n - 1];
        allowed_registers_hold(liveness, class, vreg, indices, n - 1);
        assert(indices.take(n) =~= indices.take(n - 1).push(last));
        let allowed = entry(liveness.allowed_indices@, vreg) is Some ==> entry(
            liveness.allowed_indices@,
            vreg,
        )->0@.contains(last);
        assert forall|p: PhysReg| #[trigger]
            all.contains(Alternative::Phys(p)) <==> p.0 == class && indices.take(n).contains(p.1)
                && (entry(liveness.allowed_indices@, vreg) is Some ==> entry(
                liveness.allowed_indices@,
                vreg,
            )->0@.contains(p.1)) by {
            let x = Alternative::Phys(p);
            if before.contains(x) {
                let at = choose|at: int| 0 <= at < before.len() && before[at] == x;
                assert(all[at] == x);
                let k = choose|k: int|
                    0 <= k < n - 1 && (#[trigger] indices.take(n - 1)[k]) == p.1;
                assert(indices.take(n)[k] == p.1);
            }
            if p.0 == class && p.1 == last && allowed {
                assert(all == before.push(x));
                assert(all[before.len() as int] == x);
                assert(indices.take(n)[n - 1] == last);
            }
            if indices.take(n).contains(p.1) {
                let k = choose|k: int| 0 <= k < n && indices.take(n)[k] == p.1;
                if k < n - 1 {
                    assert(indices.take(n - 1)[k] == p.1);
                }
            }
        }
    }
}

/// A virtual register may pick a physical one if and only if its class hands
/// the index out and every class it is referenced through encodes it; the last
/// alternative, and no other, is spilling.
pub proof fn alternatives_are_the_allowed_registers_and_spilling(
    abi: AbiInfo,
    liveness: Liveness,
    class: RegClassId,
    vreg: u32,
)
    ensures
        forall|p: PhysReg| #[trigger]
            alternatives_of(abi, liveness, class, vreg).contains(Alternative::Phys(p)) <==> p.0
                == class && handed_out(abi, class).contains(p.1) && (entry(
                liveness.allowed_indices@,
                vreg,
            ) is Some ==> entry(liveness.allowed_indices@, vreg)->0@.contains(p.1)),
        forall|k: int|
            0 <= k < alternatives_of(abi, liveness, class, vreg).len() ==> ((
            #[trigger] alternatives_of(abi, liveness, class, vreg)[k] is Spill) <==> k
                == alternatives_of(abi, liveness, class, vreg).len() - 1),
        alternatives_of(abi, liveness, class, vreg).len() > 0,
{
    let indices = handed_out(abi, class);
    let n = indices.len() as int;
    let all = alternatives_of(abi, liveness, class, vreg);
    let before = allowed_registers(liveness, class, vreg, indices, n);
    allowed_registers_hold(liveness, class, vreg, indices, n);
    assert(indices.take(n) =~= indices);
    assert(all == before.push(Alternative::Spill));
    assert forall|p: PhysReg| #[trigger]
        all.contains(Alternative::Phys(p)) <==> before.contains(Alternative::Phys(p)) by {
        let x = Alternative::Phys(p);
        if before.contains(x) {
            let at = choose|at: int| 0 <= at < before.len() && before[at] == x;
            assert(all[at] == x);
        }
    }
    assert forall|k: int| 0 <= k < all.len() implies ((#[trigger] all[k] is Spill) <==> k
        == all.len() - 1) by {
        if k < before.len() {
            assert(all[k] == before[k]);
        }
    }
}

/// The physical registers something clobbers while `vreg` is live.
pub open spec fn clobbers(liveness: Liveness, vreg: u32) -> Seq<PhysReg> {
    match entry(liveness.forbidden@, vreg) {
        Some(list) => list@,
        None => Seq::empty(),
    }
}

/// Whether `register` shares nothing with any register of `list`.
pub open spec fn apart(list: Seq<PhysReg>, register: PhysReg) -> bool {
    forall|k: int| 0 <= k < list.len() ==> !overlapping(#[trigger] list[k], register)
}

/// A register that is pinned may only take the physical register it is pinned
/// to, at no cost, and not even that one where something clobbers it meanwhile;
/// it may not be spilled.
pub proof fn pinned_registers_take_their_pin<C: SpillCost>(
    abi: AbiInfo,
    liveness: Liveness,
    precolor: Seq<(u32, PhysReg)>,
    costs: C,
    vreg: u32,
    pin: PhysReg,
    p: PhysReg,
)
    requires
        entry(precolor, vreg) == Some(pin),
    ensures
        alternative_cost(abi, liveness, precolor, costs, vreg, Alternative::Phys(p)) == if apart(
            clobbers(liveness, vreg),
            pin,
        ) && span_of(*p.0.0, p.1) == span_of(*pin.0.0, pin.1) {
            0
        } else {
            INF_COST
        },
        alternative_cost(abi, liveness, precolor, costs, vreg, Alternative::Spill) == INF_COST,
{
    assert(is_forbidden(liveness, vreg, pin) == any_overlaps(clobbers(liveness, vreg), pin));
    assert(apart(clobbers(liveness, vreg), pin) == !any_overlaps(clobbers(liveness, vreg), pin));
}

/// A register that is not pinned may take no physical register that is clobbered
/// meanwhile. One the callee must save costs more than one it need not, and less
/// than spilling a register that is referenced once. Spilling costs what the
/// estimate says.
pub proof fn free_registers_avoid_clobbers_and_saves<C: SpillCost>(
    abi: AbiInfo,
    liveness: Liveness,
    precolor: Seq<(u32, PhysReg)>,
    costs: C,
    vreg: u32,
    p: PhysReg,
)
    requires
        entry(precolor, vreg) is None,
    ensures
        !apart(clobbers(liveness, vreg), p) ==> alternative_cost(
            abi,
            liveness,
            precolor,
            costs,
            vreg,
            Alternative::Phys(p),
        ) == INF_COST,
        apart(clobbers(liveness, vreg), p) && apart(abi.callee_saved@, p) ==> alternative_cost(
            abi,
            liveness,
            precolor,
            costs,
            vreg,
            Alternative::Phys(p),
        ) == 0,
        apart(clobbers(liveness, vreg), p) && !apart(abi.callee_saved@, p) ==> 0
            < alternative_cost(abi, liveness, precolor, costs, vreg, Alternative::Phys(p)) < 10,
        alternative_cost(abi, liveness, precolor, costs, vreg, Alternative::Spill)
            == costs.cost_of(vreg),
{
    assert(is_forbidden(liveness, vreg, p) == any_overlaps(clobbers(liveness, vreg), p));
    assert(apart(clobbers(liveness, vreg), p) == !any_overlaps(clobbers(liveness, vreg), p));
    assert(apart(abi.callee_saved@, p) == !any_overlaps(abi.callee_saved@, p));
}

/// Nothing spills a protected register; spilling another costs ten for each time
/// it is referenced, and as much as for one reference where none is recorded.
pub proof fn spilling_costs_by_references(costs: SpillCosts, vreg: u32)
    ensures
        costs.protected@.contains(vreg) ==> spill_cost_of(costs, vreg) == INF_COST,
        !costs.protected@.contains(vreg) ==> spill_cost_of(costs, vreg) == 10 * (match entry(
            costs.references@,
            vreg,
        ) {
            Some(n) => n as int,
            None => 1,
        }) && spill_cost_of(costs, vreg) < INF_COST,
{
}

proof fn interference_edges_are_conflicts<C: SpillCost>(config: AllocConfig<C>, n: int, at: int)
    requires
        0 <= n <= config.liveness.interference@.len(),
        0 <= at < interference_edges(config, n).len(),
    ensures
        exists|k: int|
            0 <= k < n && {
                let (u, v) = #[trigger] config.liveness.interference@[k];
                let i = number_position(config.liveness.vregs@, u);
                let j = number_position(config.liveness.vregs@, v);
                i is Some && j is Some && interference_edges(config, n)[at].left == i->0
                    && interference_edges(config, n)[at].right == j->0
            },
        ({
            let e = interference_edges(config, n)[at];
            e.cells == interference_costs(node(config, e.left), node(config, e.right))
        }),
    decreases n,
{
    if n > 0 {
        let before = interference_edges(config, n - 1);
        let all = interference_edges(config, n);
        if at < before.len() {
            interference_edges_are_conflicts(config, n - 1, at);
            assert(all[at] == before[at]);
        } else {
            assert(all.len() == before.len() + 1);
            let pair = config.liveness.interference@[n - 1];
            assert(number_position(config.liveness.vregs@, pair.0) is Some);
        }
    }
}

proof fn affinity_edges_are_copies<C: SpillCost>(
    config: AllocConfig<C>,
    affinities: Seq<(u32, u32)>,
    n: int,
    at: int,
)
    requires
        0 <= n <= affinities.len(),
        0 <= at < affinity_edges(config, affinities, n).len(),
    ensures
        ({
            let e = affinity_edges(config, affinities, n)[at];
            &&& 0 <= e.left < config.liveness.vregs@.len()
            &&& 0 <= e.right < config.liveness.vregs@.len()
            &&& e.cells == affinity_costs(node(config, e.left), node(config, e.right))
        }),
    decreases n,
{
    if n > 0 {
        let before = affinity_edges(config, affinities, n - 1);
        let all = affinity_edges(config, affinities, n);
        if at < before.len() {
            affinity_edges_are_copies(config, affinities, n - 1, at);
            assert(all[at] == before[at]);
        } else {
            let pair = affinities[n - 1];
            first_position_is_first(config.liveness.vregs@, pair.0);
            first_position_is_first(config.liveness.vregs@, pair.1);
        }
    }
}

/// A choice of one alternative for every node is feasible if and only if none
/// costs an infinite amount and no two nodes that are live at once pick
/// physical registers that overlap. Copies forbid nothing.
pub proof fn feasible_choices_keep_live_registers_apart<C: SpillCost>(
    config: AllocConfig<C>,
    affinities: Seq<(u32, u32)>,
    choices: Seq<usize>,
)
    requires
        picks(problem_of(config, affinities), choices),
    ensures
        feasible(problem_of(config, affinities), choices) <==> {
            &&& forall|i: int|
                #![trigger node(config, i)]
                0 <= i < config.liveness.vregs@.len() ==> alternative_cost(
                    *config.abi,
                    *config.liveness,
                    config.precolor@,
                    *config.spill_cost,
                    config.liveness.vregs@[i],
                    node(config, i)[choices[i] as int],
                ) < INF_COST
            &&& forall|k: int|
                #![trigger config.liveness.interference@[k]]
                0 <= k < config.liveness.interference@.len() ==> {
                    let (u, v) = config.liveness.interference@[k];
                    let i = number_position(config.liveness.vregs@, u);
                    let j = number_position(config.liveness.vregs@, v);
                    i is Some && j is Some ==> match (
                        node(config, i->0)[choices[i->0] as int],
                        node(config, j->0)[choices[j->0] as int],
                    ) {
                        (Alternative::Phys(p), Alternative::Phys(q)) => !overlapping(p, q),
                        _ => true,
                    }
                }
        },
{
    let problem = problem_of(config, affinities);
    let m = config.liveness.interference@.len() as int;
    let first = interference_edges(config, m);
    let rest = affinity_edges(config, affinities, affinities.len() as int);
    assert(problem.edges == first + rest);
    assert forall|i: int| 0 <= i < config.liveness.vregs@.len() implies {
        &&& choices[i] < (#[trigger] node(config, i)).len()
        &&& problem.alternatives[i] == node(config, i)
        &&& problem.costs[i][choices[i] as int] == alternative_cost(
            *config.abi,
            *config.liveness,
            config.precolor@,
            *config.spill_cost,
            config.liveness.vregs@[i],
            node(config, i)[choices[i] as int],
        )
    } by {
        assert(choices[i] < problem.alternatives[i].len());
        assert(problem.costs[i] == node_cost(config, i));
    }
    if feasible(problem, choices) {
        assert forall|i: int|
            #![trigger node(config, i)]
            0 <= i < config.liveness.vregs@.len() implies alternative_cost(
            *config.abi,
            *config.liveness,
            config.precolor@,
            *config.spill_cost,
            config.liveness.vregs@[i],
            node(config, i)[choices[i] as int],
        ) < INF_COST by {
            assert(problem.costs[i][choices[i] as int] < INF_COST);
        }
        assert forall|k: int|
            #![trigger config.liveness.interference@[k]]
            0 <= k < config.liveness.interference@.len() implies {
            let (u, v) = config.liveness.interference@[k];
            let i = number_position(config.liveness.vregs@, u);
            let j = number_position(config.liveness.vregs@, v);
            i is Some && j is Some ==> match (
                node(config, i->0)[choices[i->0] as int],
                node(config, j->0)[choices[j->0] as int],
            ) {
                (Alternative::Phys(p), Alternative::Phys(q)) => !overlapping(p, q),
                _ => true,
            }
        } by {
            let (u, v) = config.liveness.interference@[k];
            let i = number_position(config.liveness.vregs@, u);
            let j = number_position(config.liveness.vregs@, v);
            if i is Some && j is Some {
                interfering_registers_do_not_overlap(config, affinities, choices, k);
                first_position_is_first(config.liveness.vregs@, u);
                first_position_is_first(config.liveness.vregs@, v);
                assert(problem.alternatives[i->0] == node(config, i->0));
                assert(problem.alternatives[j->0] == node(config, j->0));
            }
        }
    }
    let fine = {
        &&& forall|i: int|
            #![trigger node(config, i)]
            0 <= i < config.liveness.vregs@.len() ==> alternative_cost(
                *config.abi,
                *config.liveness,
                config.precolor@,
                *config.spill_cost,
                config.liveness.vregs@[i],
                node(config, i)[choices[i] as int],
            ) < INF_COST
        &&& forall|k: int|
            #![trigger config.liveness.interference@[k]]
            0 <= k < config.liveness.interference@.len() ==> {
                let (u, v) = config.liveness.interference@[k];
                let i = number_position(config.liveness.vregs@, u);
                let j = number_position(config.liveness.vregs@, v);
                i is Some && j is Some ==> match (
                    node(config, i->0)[choices[i->0] as int],
                    node(config, j->0)[choices[j->0] as int],
                ) {
                    (Alternative::Phys(p), Alternative::Phys(q)) => !overlapping(p, q),
                    _ => true,
                }
            }
    };
    if fine {
        assert forall|i: int|
            #![trigger problem.costs[i]]
            0 <= i < problem.vregs.len() implies problem.costs[i][choices[i] as int]
            < INF_COST by {
            assert(choices[i] < node(config, i).len());
        }
        assert forall|at: int|
            #![trigger problem.edges[at]]
            0 <= at < problem.edges.len() implies problem.edges[at].cells[
            choices[problem.edges[at].left] as int
        ][choices[problem.edges[at].right] as int] < INF_COST by {
            let e = problem.edges[at];
            if at < first.len() {
                assert(e == first[at]);
                interference_edges_are_conflicts(config, m, at);
                let k = choose|k: int|
                    0 <= k < m && {
                        let (u, v) = #[trigger] config.liveness.interference@[k];
                        let i = number_position(config.liveness.vregs@, u);
                        let j = number_position(config.liveness.vregs@, v);
                        i is Some && j is Some && first[at].left == i->0 && first[at].right
                            == j->0
                    };
                let pair = config.liveness.interference@[k];
                first_position_is_first(config.liveness.vregs@, pair.0);
                first_position_is_first(config.liveness.vregs@, pair.1);
                assert(choices[e.left] < node(config, e.left).len());
                assert(choices[e.right] < node(config, e.right).len());
            } else {
                assert(e == rest[at - first.len()]);
                affinity_edges_are_copies(
                    config,
                    affinities,
                    affinities.len() as int,
                    at - first.len(),
                );
                assert(choices[e.left] < node(config, e.left).len());
                assert(choices[e.right] < node(config, e.right).len());
            }
        }
        assert(feasible(problem, choices));
    }
}

/// A copy between two registers costs nothing where they take the same physical
/// register or either is spilled, and one where they take different ones.
pub proof fn copies_prefer_one_register(
    left: Seq<Alternative>,
    right: Seq<Alternative>,
    i: int,
    j: int,
)
    requires
        0 <= i < left.len(),
        0 <= j < right.len(),
    ensures
        affinity_costs(left, right)[i][j] == match (left[i], right[j]) {
            (Alternative::Phys(p), Alternative::Phys(q)) => if span_of(*p.0.0, p.1) == span_of(
                *q.0.0,
                q.1,
            ) {
                0u64
            } else {
                1u64
            },
            _ => 0,
        },
{
}

proof fn readings_hold(problem: ProblemView, choices: Seq<usize>, n: int)
    requires
        0 <= n <= problem.vregs.len(),
        picks(problem, choices),
    ensures
        forall|vreg: u32, p: PhysReg| #[trigger]
            assigned(problem, choices, n).contains((vreg, p)) <==> exists|i: int|
                0 <= i < n && #[trigger] problem.vregs[i] == vreg
                    && problem.alternatives[i][choices[i] as int] == Alternative::Phys(p),
        forall|vreg: u32| #[trigger]
            spilled(problem, choices, n).contains(vreg) <==> exists|i: int|
                0 <= i < n && #[trigger] problem.vregs[i] == vreg
                    && problem.alternatives[i][choices[i] as int] is Spill,
        assigned(problem, choices, n).len() + spilled(problem, choices, n).len() == n,
    decreases n,
{
    if n > 0 {
        let given = assigned(problem, choices, n - 1);
        let left = spilled(problem, choices, n - 1);
        let last = problem.vregs[n - 1];
        let choice = problem.alternatives[n - 1][choices[n - 1] as int];
        readings_hold(problem, choices, n - 1);
        assert forall|vreg: u32, p: PhysReg| #[trigger]
            assigned(problem, choices, n).contains((vreg, p)) <==> exists|i: int|
                0 <= i < n && #[trigger] problem.vregs[i] == vreg
                    && problem.alternatives[i][choices[i] as int] == Alternative::Phys(p) by {
            let now = assigned(problem, choices, n);
            if given.contains((vreg, p)) {
                let at = choose|at: int| 0 <= at < given.len() && given[at] == (vreg, p);
                assert(now[at] == (vreg, p));
            }
            if choice == Alternative::Phys(p) && last == vreg {
                assert(now == given.push((vreg, p)));
                assert(now[given.len() as int] == (vreg, p));
                assert(problem.vregs[n - 1] == vreg);
            }
            if now.contains((vreg, p)) && !given.contains((vreg, p)) {
                assert(choice is Phys);
                assert(now == given.push((last, choice->Phys_0)));
                assert(problem.vregs[n - 1] == vreg);
            }
        }
        assert forall|vreg: u32| #[trigger]
            spilled(problem, choices, n).contains(vreg) <==> exists|i: int|
                0 <= i < n && #[trigger] problem.vregs[i] == vreg
                    && problem.alternatives[i][choices[i] as int] is Spill by {
            let now = spilled(problem, choices, n);
            if left.contains(vreg) {
                let at = choose|at: int| 0 <= at < left.len() && left[at] == vreg;
                assert(now[at] == vreg);
            }
            if choice is Spill && last == vreg {
                assert(now == left.push(vreg));
                assert(now[left.len() as int] == vreg);
                assert(problem.vregs[n - 1] == vreg);
            }
            if now.contains(vreg) && !left.contains(vreg) {
                assert(choice is Spill);
                assert(now == left.push(last));
                assert(problem.vregs[n - 1] == vreg);
            }
        }
    }
}

/// A round assigns registers exactly where no node chose to spill, and then
/// gives every node the physical register it chose and no other; where some
/// node chose to spill, it names those nodes and no others.
pub proof fn rounds_read_the_choices_back(
    problem: ProblemView,
    choices: Seq<usize>,
    result: AllocResult,
)
    requires
        picks(problem, choices),
        reads_back(problem, choices, result),
    ensures
        result is Assigned <==> forall|i: int|
            #![trigger problem.alternatives[i]]
            0 <= i < problem.vregs.len() ==> problem.alternatives[i][choices[i] as int] is Phys,
        match result {
            AllocResult::Assigned(given) => {
                &&& given@.len() == problem.vregs.len()
                &&& forall|vreg: u32, p: PhysReg| #[trigger]
                    given@.contains((vreg, p)) <==> exists|i: int|
                        0 <= i < problem.vregs.len() && #[trigger] problem.vregs[i] == vreg
                            && problem.alternatives[i][choices[i] as int] == Alternative::Phys(p)
            },
            AllocResult::Spill(left) => {
                &&& left@.len() > 0
                &&& forall|vreg: u32| #[trigger]
                    left@.contains(vreg) <==> exists|i: int|
                        0 <= i < problem.vregs.len() && #[trigger] problem.vregs[i] == vreg
                            && problem.alternatives[i][choices[i] as int] is Spill
            },
        },
{
    let n = problem.vregs.len() as int;
    readings_hold(problem, choices, n);
    let left = spilled(problem, choices, n);
    if left.len() > 0 {
        assert(left.contains(left[0]));
        let i = choose|i: int|
            0 <= i < n && #[trigger] problem.vregs[i] == left[0]
                && problem.alternatives[i][choices[i] as int] is Spill;
        assert(!(problem.alternatives[i][choices[i] as int] is Phys));
    } else {
        assert forall|i: int|
            #![trigger problem.alternatives[i]]
            0 <= i < problem.vregs.len() implies problem.alternatives[i][choices[i] as int] is Phys by {
            if problem.alternatives[i][choices[i] as int] is Spill {
                assert(left.contains(problem.vregs[i]));
            }
        }
    }
}

} // verus!

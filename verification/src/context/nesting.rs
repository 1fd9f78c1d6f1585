//! What lies around and under an operation, and edits of unordered regions that
//! follow it: putting an operation where its operands say, and renaming what
//! regions produce.
use vstd::prelude::*;
use crate::context::ports::exit_lists;
use crate::context::region_holding;
use crate::context::sound::region_ops_are_live;
use crate::context::Context;
use crate::context::ContextView;
use crate::ids::OpId;
use crate::ids::RegionId;
use crate::ids::ValueId;
use crate::interfaces::Interface;
use crate::journal::region_owner;
use crate::journal::spine;
use crate::journal::spine_limit;
use crate::levels::level_order;
use crate::levels::levels_hold_what_walks_hold;
use crate::tree::all_trees;
use crate::tree::walk_of;

verus! {

impl ContextView {
    /// The region around `region`: the one that holds the operation owning it.
    pub open spec fn outer_region(self, region: RegionId) -> Option<RegionId> {
        match region_owner(self.ir, region) {
            Some(op) => region_holding(self.ir, op),
            None => None,
        }
    }

    /// `region` and the regions enclosing it, innermost first, at most `limit` of
    /// them.
    pub open spec fn enclosing_regions(self, region: RegionId, limit: nat) -> Seq<RegionId>
        decreases limit,
    {
        if limit == 0 {
            Seq::empty()
        } else {
            seq![region] + match self.outer_region(region) {
                Some(outer) => self.enclosing_regions(outer, (limit - 1) as nat),
                None => Seq::empty(),
            }
        }
    }

    /// `region` and every region enclosing it, innermost first.
    pub open spec fn region_ancestors(self, region: RegionId) -> Seq<RegionId> {
        self.enclosing_regions(region, self.ir.regions.now.len() + 1)
    }

    /// Whether `op` is one of `roots` or sits under one, at any depth.
    pub open spec fn op_under(self, op: OpId, roots: Seq<OpId>) -> bool {
        exists|i: int|
            0 <= i < spine(self.ir, op, spine_limit(self.ir)).len() && roots.contains(
                #[trigger] spine(self.ir, op, spine_limit(self.ir))[i],
            )
    }

    /// The region a value is defined in: the one it is a port of, the one whose
    /// block takes it as an argument, or the one that holds the operation
    /// defining it.
    pub open spec fn defining_region(self, value: ValueId) -> Option<RegionId> {
        match self.ir.value(value) {
            Some(entry) => match entry.region {
                Some(region) => Some(region),
                None => match entry.block {
                    Some(block) => match self.ir.block(block) {
                        Some(b) => b.parent,
                        None => None,
                    },
                    None => match entry.value.defining_op {
                        Some(op) => region_holding(self.ir, op),
                        None => None,
                    },
                },
            },
            None => None,
        }
    }

    /// The regions the first `n` of `values` are defined in, where they are in
    /// any.
    pub open spec fn defining_regions(self, values: Seq<ValueId>, n: int) -> Seq<RegionId>
        decreases n,
    {
        if n <= 0 {
            Seq::empty()
        } else {
            match self.defining_region(values[n - 1]) {
                Some(region) => self.defining_regions(values, n - 1).push(region),
                None => self.defining_regions(values, n - 1),
            }
        }
    }

    /// The last of the first `n` of `regions` that lies deepest.
    pub open spec fn deepest(self, regions: Seq<RegionId>, n: int) -> Option<RegionId>
        decreases n,
    {
        if n <= 0 {
            None
        } else {
            match self.deepest(regions, n - 1) {
                Some(region) => if self.region_ancestors(regions[n - 1]).len()
                    >= self.region_ancestors(region).len() {
                    Some(regions[n - 1])
                } else {
                    Some(region)
                },
                None => Some(regions[n - 1]),
            }
        }
    }

    /// The region `op` belongs in: that of the first memory state it observes,
    /// else the deepest its operands are defined in.
    pub open spec fn joined_region(self, op: OpId) -> Option<RegionId> {
        let operands = self.ir.op(op)->0.operands;
        let states = self.filtered(operands, true);
        if states.len() > 0 {
            self.defining_region(states[0])
        } else {
            let regions = self.defining_regions(operands, operands.len() as int);
            self.deepest(regions, regions.len() as int)
        }
    }

    /// Whether every operand of `op` is visible from the region it belongs in.
    pub open spec fn joins(self, op: OpId) -> bool {
        let operands = self.ir.op(op)->0.operands;
        let regions = self.defining_regions(operands, operands.len() as int);
        self.joined_region(op) is Some && forall|i: int|
            0 <= i < regions.len() ==> self.region_ancestors(
                self.joined_region(op)->0,
            ).contains(#[trigger] regions[i])
    }

    /// The regions the first `n` of `ops` own.
    pub open spec fn regions_owned(self, ops: Seq<OpId>, n: int) -> Seq<RegionId>
        decreases n,
    {
        if n <= 0 {
            Seq::empty()
        } else {
            self.regions_owned(ops, n - 1) + self.ir.op(ops[n - 1])->0.regions
        }
    }

    /// `region` and every region nested in it.
    pub open spec fn nested_regions(self, region: RegionId) -> Seq<RegionId> {
        let ops = level_order(self.kids(), self.region_ops(region));
        seq![region] + self.regions_owned(ops, ops.len() as int)
    }

    /// With `results` for what the unordered `region` produces.
    pub open spec fn with_node_results(self, region: RegionId, results: Seq<ValueId>) -> Self {
        self.with_nodes(
            region,
            self.node_ports(region),
            self.node_ops(region),
            results,
        ).reported_region(region)
    }

    /// With what the first `n` of `regions` produce renamed from `before` to
    /// `after`, but for the regions of operations under `except`.
    pub open spec fn results_renamed(
        self,
        regions: Seq<RegionId>,
        before: ValueId,
        after: ValueId,
        except: Seq<OpId>,
        n: int,
    ) -> Self
        decreases n,
    {
        if n <= 0 {
            self
        } else {
            let so_far = self.results_renamed(regions, before, after, except, n - 1);
            let region = regions[n - 1];
            let spared = match region_owner(so_far.ir, region) {
                Some(owner) => so_far.op_under(owner, except),
                None => false,
            };
            if !spared && so_far.region_results(region).contains(before) {
                so_far.with_node_results(region, renamed(so_far.region_results(region), before, after))
            } else {
                so_far
            }
        }
    }

    /// With what the first `n` of `regions` produce taken to what `renames`
    /// lead to.
    pub open spec fn results_followed(
        self,
        regions: Seq<RegionId>,
        renames: Seq<(ValueId, ValueId)>,
        n: int,
    ) -> Self
        decreases n,
    {
        if n <= 0 {
            self
        } else {
            let so_far = self.results_followed(regions, renames, n - 1);
            let region = regions[n - 1];
            let results = so_far.region_results(region);
            if any_renamed(results, renames) {
                so_far.with_node_results(region, all_followed(results, renames))
            } else {
                so_far
            }
        }
    }
}

/// `values` with `after` in the place of `before`.
pub open spec fn renamed(values: Seq<ValueId>, before: ValueId, after: ValueId) -> Seq<ValueId> {
    values.map_values(
        |v: ValueId|
            if v == before {
                after
            } else {
                v
            },
    )
}

/// What `renames` says of `value`: its first entry for it.
pub open spec fn renamed_to(renames: Seq<(ValueId, ValueId)>, value: ValueId, n: int) -> Option<
    ValueId,
>
    decreases n,
{
    if n <= 0 {
        None
    } else {
        match renamed_to(renames, value, n - 1) {
            Some(next) => Some(next),
            None => if renames[n - 1].0 == value {
                Some(renames[n - 1].1)
            } else {
                None
            },
        }
    }
}

/// Where `renames` lead from `value` in at most `steps` steps.
pub open spec fn followed(renames: Seq<(ValueId, ValueId)>, value: ValueId, steps: nat) -> ValueId
    decreases steps,
{
    match renamed_to(renames, value, renames.len() as int) {
        Some(next) => if steps == 0 {
            value
        } else {
            followed(renames, next, (steps - 1) as nat)
        },
        None => value,
    }
}

/// Whether following `renames` from `value` comes to an end.
pub open spec fn ends(renames: Seq<(ValueId, ValueId)>, value: ValueId) -> bool {
    renamed_to(
        renames,
        followed(renames, value, renames.len()),
        renames.len() as int,
    ) is None
}

/// Each of `values` taken to where `renames` lead.
pub open spec fn all_followed(
    values: Seq<ValueId>,
    renames: Seq<(ValueId, ValueId)>,
) -> Seq<ValueId> {
    values.map_values(|v: ValueId| followed(renames, v, renames.len()))
}

/// Whether `renames` has an entry for one of `values`.
pub open spec fn any_renamed(values: Seq<ValueId>, renames: Seq<(ValueId, ValueId)>) -> bool {
    exists|i: int|
        0 <= i < values.len() && (#[trigger] renamed_to(
            renames,
            values[i],
            renames.len() as int,
        )) is Some
}

fn lookup(renames: &Vec<(ValueId, ValueId)>, value: ValueId) -> (r: Option<ValueId>)
    ensures
        r == renamed_to(renames@, value, renames@.len() as int),
{
    let mut r: Option<ValueId> = None;
    let mut i: usize = 0;
    while i < renames.len()
        invariant
            i <= renames.len(),
            r == renamed_to(renames@, value, i as int),
        decreases renames.len() - i,
    {
        if r.is_none() && renames[i].0 == value {
            r = Some(renames[i].1);
        }
        i += 1;
    }
    r
}

fn follow(renames: &Vec<(ValueId, ValueId)>, value: ValueId) -> (r: ValueId)
    ensures
        r == followed(renames@, value, renames@.len()),
{
    let mut here: ValueId = value;
    let mut left: usize = renames.len();
    while left > 0
        invariant
            left <= renames.len(),
            followed(renames@, value, renames@.len()) == followed(renames@, here, left as nat),
        decreases left,
    {
        match lookup(renames, here) {
            Some(next) => {
                here = next;
            },
            None => {
                return here;
            },
        }
        left -= 1;
    }
    here
}

impl Context {
    /// `region` and every region enclosing it, innermost first.
    pub fn region_ancestors(&self, region: RegionId) -> (r: Vec<RegionId>)
        requires
            self.inv(),
        ensures
            r@ == self@.region_ancestors(region),
    {
        let limit: u128 = self.ir.region_count() as u128 + 1;
        let mut r: Vec<RegionId> = Vec::new();
        let mut current: Option<RegionId> = Some(region);
        let mut step: u128 = 0;
        let ghost whole = self@.region_ancestors(region);
        assert(r@ + self@.enclosing_regions(region, limit as nat) =~= whole);
        while step < limit && current.is_some()
            invariant
                self.inv(),
                step <= limit,
                limit == self@.ir.regions.now.len() + 1,
                whole == r@ + match current {
                    Some(here) => self@.enclosing_regions(here, (limit - step) as nat),
                    None => Seq::empty(),
                },
            decreases limit - step,
        {
            let here = current.unwrap();
            let ghost seen = r@;
            r.push(here);
            let outer = match self.region_parent_op(here) {
                Some(op) => self.region_of_op(op),
                None => None,
            };
            current = outer;
            step = step + 1;
            proof {
                let rest = match current {
                    Some(o) => self@.enclosing_regions(o, (limit - step) as nat),
                    None => Seq::<RegionId>::empty(),
                };
                assert(seen + (seq![here] + rest) =~= r@ + rest);
            }
        }
        assert(r@ =~= whole);
        r
    }

    /// Whether `op` is one of `roots` or sits under one, at any depth.
    pub fn op_under(&self, op: OpId, roots: &Vec<OpId>) -> (r: bool)
        requires
            self.inv(),
        ensures
            r == self@.op_under(op, roots@),
    {
        let limit: u128 = self.op_count() as u128 + 1;
        let ghost chain = spine(self@.ir, op, spine_limit(self@.ir));
        let ghost mut seen: Seq<OpId> = Seq::empty();
        let mut current: Option<OpId> = Some(op);
        let mut step: u128 = 0;
        assert(seen + spine(self@.ir, op, limit as nat) =~= chain);
        while step < limit && current.is_some()
            invariant
                self.inv(),
                step <= limit,
                limit == spine_limit(self@.ir),
                chain == spine(self@.ir, op, spine_limit(self@.ir)),
                chain == seen + match current {
                    Some(here) => spine(self@.ir, here, (limit - step) as nat),
                    None => Seq::empty(),
                },
                forall|i: int| 0 <= i < seen.len() ==> !roots@.contains(#[trigger] seen[i]),
            decreases limit - step,
        {
            let here = current.unwrap();
            if listed(roots, here) {
                proof {
                    assert(chain[seen.len() as int] == here);
                }
                return true;
            }
            current = self.parent_op(here);
            step = step + 1;
            proof {
                let rest = match current {
                    Some(o) => spine(self@.ir, o, (limit - step) as nat),
                    None => Seq::<OpId>::empty(),
                };
                let before = seen;
                seen = seen.push(here);
                assert(before + (seq![here] + rest) =~= seen + rest);
            }
        }
        assert(chain =~= seen);
        false
    }

    /// The region a value is defined in.
    pub fn defining_region(&self, value: ValueId) -> (r: Option<RegionId>)
        requires
            self.inv(),
            self@.ir.value(value) is Some,
        ensures
            r == self@.defining_region(value),
    {
        if let Some(region) = self.region_of_port(value) {
            return Some(region);
        }
        if let Some(block) = self.block_of_argument(value) {
            return self.parent_region(block);
        }
        match self.get_value(value).defining_op {
            Some(op) => self.region_of_op(op),
            None => None,
        }
    }

    /// Puts `op` into the deepest region every operand is visible from: a state
    /// operand pins it to that operand's region, and otherwise the innermost of
    /// the operands' regions. Hands back the region chosen.
    pub fn add_auto(&mut self, op: OpId) -> (r: RegionId)
        requires
            old(self).inv(),
            old(self)@.ir.op(op) is Some,
            old(self)@.values_live(old(self)@.ir.op(op)->0.operands),
            old(self)@.joins(op),
            old(self)@.is_nodes(old(self)@.joined_region(op)->0),
            old(self)@.ir.op(op)->0.operands.len() <= crate::lists::MAX_IDS,
        ensures
            final(self).inv(),
            Some(r) == old(self)@.joined_region(op),
            final(self)@ == old(self)@.with_node(r, op),
    {
        let operands = crate::ir::copy_list(self.operands_of(op));
        let states = self.states_among(operands.as_slice());
        let chosen: RegionId = if states.len() > 0 {
            proof {
                first_state_is_an_operand(self@, operands@);
            }
            self.defining_region(states.at(0)).unwrap()
        } else {
            let mut regions: Vec<RegionId> = Vec::new();
            let mut i: usize = 0;
            while i < operands.len()
                invariant
                    self.inv(),
                    i <= operands.len(),
                    self@.values_live(operands@),
                    regions@ == self@.defining_regions(operands@, i as int),
                decreases operands.len() - i,
            {
                assert(self@.ir.value(operands@[i as int]) is Some);
                if let Some(region) = self.defining_region(operands[i]) {
                    regions.push(region);
                }
                i += 1;
            }
            let mut best: Option<(RegionId, usize)> = None;
            let mut i: usize = 0;
            while i < regions.len()
                invariant
                    self.inv(),
                    i <= regions.len(),
                    match best {
                        Some((region, depth)) => self@.deepest(regions@, i as int) == Some(region)
                            && depth == self@.region_ancestors(region).len(),
                        None => self@.deepest(regions@, i as int) is None,
                    },
                decreases regions.len() - i,
            {
                let depth: usize = self.region_ancestors(regions[i]).len();
                match best {
                    Some((_, least)) => {
                        if depth >= least {
                            best = Some((regions[i], depth));
                        }
                    },
                    None => {
                        best = Some((regions[i], depth));
                    },
                }
                i += 1;
            }
            best.unwrap().0
        };
        self.add(chosen, op);
        chosen
    }

    /// `region` and every region nested in it.
    pub fn nested_regions(&self, region: RegionId) -> (r: Vec<RegionId>)
        requires
            self.inv(),
            self@.sound(),
            all_trees(self@.kids(), self@.region_ops(region)),
        ensures
            r@ == self@.nested_regions(region),
    {
        let roots = self.region_op_ids(region);
        proof {
            region_ops_are_live(self@, region);
        }
        let ops = self.subtree_ops(&roots);
        let mut r: Vec<RegionId> = Vec::new();
        r.push(region);
        let mut i: usize = 0;
        assert(r@ =~= seq![region] + self@.regions_owned(ops@, 0));
        while i < ops.len()
            invariant
                self.inv(),
                i <= ops.len(),
                self@.all_live(ops@),
                r@ == seq![region] + self@.regions_owned(ops@, i as int),
            decreases ops.len() - i,
        {
            let ghost before = r@;
            assert(self@.ir.op(ops@[i as int]) is Some);
            let mut owned = crate::ir::copy_list(self.regions_of(ops[i]));
            let ghost more = owned@;
            r.append(&mut owned);
            assert(r@ =~= seq![region] + (self@.regions_owned(ops@, i as int) + more));
            i += 1;
        }
        r
    }

    /// Region results sit in no use list; this renames `before` to `after` in the
    /// result list of `region` and every region nested in it, except regions
    /// under `except`, which keep naming the value they define.
    pub fn rename_region_results(
        &mut self,
        region: RegionId,
        before: ValueId,
        after: ValueId,
        except: &Vec<OpId>,
    )
        requires
            old(self).inv(),
            old(self)@.sound(),
            all_trees(old(self)@.kids(), old(self)@.region_ops(region)),
        ensures
            final(self).inv(),
            final(self)@ == old(self)@.results_renamed(
                old(self)@.nested_regions(region),
                before,
                after,
                except@,
                old(self)@.nested_regions(region).len() as int,
            ),
    {
        let regions = self.nested_regions(region);
        let ghost start = self@;
        let mut i: usize = 0;
        while i < regions.len()
            invariant
                self.inv(),
                i <= regions.len(),
                self@ == start.results_renamed(regions@, before, after, except@, i as int),
            decreases regions.len() - i,
        {
            let here: RegionId = regions[i];
            let spared = match self.region_parent_op(here) {
                Some(owner) => self.op_under(owner, except),
                None => false,
            };
            let results = self.region_results(here);
            let mut changed: Vec<ValueId> = Vec::new();
            let mut found: bool = false;
            let mut j: usize = 0;
            while j < results.len()
                invariant
                    j <= results.len(),
                    changed@ == renamed(results@.take(j as int), before, after),
                    found == results@.take(j as int).contains(before),
                decreases results.len() - j,
            {
                let ghost part = results@.take(j as int);
                let result: ValueId = results[j];
                if result == before {
                    found = true;
                    changed.push(after);
                } else {
                    changed.push(result);
                }
                j += 1;
                proof {
                    let more = results@.take(j as int);
                    assert(more =~= part.push(result));
                    assert(changed@ =~= renamed(more, before, after));
                    if result == before {
                        assert(more[j - 1] == before);
                    } else if part.contains(before) {
                        let k = choose|k: int| 0 <= k < part.len() && part[k] == before;
                        assert(more[k] == before);
                    } else if more.contains(before) {
                        let k = choose|k: int| 0 <= k < more.len() && more[k] == before;
                        assert(part[k] == before);
                    }
                }
            }
            assert(results@.take(j as int) =~= results@);
            if found && !spared {
                assert(self@.is_nodes(here));
                self.set_region_results(here, changed);
            }
            i += 1;
        }
    }

    /// Renames many results in one walk: a result named by `renames` follows the
    /// chain to the value nothing renames.
    pub fn rename_region_results_batch(
        &mut self,
        region: RegionId,
        renames: &Vec<(ValueId, ValueId)>,
    )
        requires
            old(self).inv(),
            old(self)@.sound(),
            all_trees(old(self)@.kids(), old(self)@.region_ops(region)),
            forall|v: ValueId| #[trigger] ends(renames@, v),
        ensures
            final(self).inv(),
            final(self)@ == old(self)@.results_followed(
                old(self)@.nested_regions(region),
                renames@,
                old(self)@.nested_regions(region).len() as int,
            ),
    {
        let regions = self.nested_regions(region);
        let ghost start = self@;
        let mut i: usize = 0;
        while i < regions.len()
            invariant
                self.inv(),
                i <= regions.len(),
                self@ == start.results_followed(regions@, renames@, i as int),
            decreases regions.len() - i,
        {
            let here: RegionId = regions[i];
            let results = self.region_results(here);
            let mut changed: Vec<ValueId> = Vec::new();
            let mut found: bool = false;
            let mut j: usize = 0;
            while j < results.len()
                invariant
                    j <= results.len(),
                    changed@ == all_followed(results@.take(j as int), renames@),
                    found == any_renamed(results@.take(j as int), renames@),
                decreases results.len() - j,
            {
                let ghost part = results@.take(j as int);
                let result: ValueId = results[j];
                if lookup(renames, result).is_some() {
                    found = true;
                }
                changed.push(follow(renames, result));
                j += 1;
                proof {
                    let more = results@.take(j as int);
                    assert(more =~= part.push(result));
                    assert(changed@ =~= all_followed(more, renames@));
                    let n = renames@.len() as int;
                    if renamed_to(renames@, result, n) is Some {
                        assert(renamed_to(renames@, more[j - 1], n) is Some);
                    } else if any_renamed(part, renames@) {
                        let k = choose|k: int|
                            0 <= k < part.len() && (#[trigger] renamed_to(
                                renames@,
                                part[k],
                                n,
                            )) is Some;
                        assert(renamed_to(renames@, more[k], n) is Some);
                    } else if any_renamed(more, renames@) {
                        let k = choose|k: int|
                            0 <= k < more.len() && (#[trigger] renamed_to(
                                renames@,
                                more[k],
                                n,
                            )) is Some;
                        assert(renamed_to(renames@, part[k], n) is Some);
                    }
                }
            }
            assert(results@.take(j as int) =~= results@);
            if found {
                assert(self@.is_nodes(here));
                self.set_region_results(here, changed);
            }
            i += 1;
        }
    }
}

impl ContextView {
    /// The non-local exits among the first `n` of `ops` that leave `target`, by what
    /// `targets` says each exit leaves.
    pub open spec fn leaving(
        self,
        ops: Seq<OpId>,
        targets: Seq<(OpId, OpId)>,
        target: OpId,
        n: int,
    ) -> Seq<OpId>
        decreases n,
    {
        if n <= 0 {
            Seq::empty()
        } else {
            let before = self.leaving(ops, targets, target, n - 1);
            if self.has_interface(ops[n - 1], Interface::NonLocalExit) && targets.contains(
                (ops[n - 1], target),
            ) {
                before.push(ops[n - 1])
            } else {
                before
            }
        }
    }

    /// The non-local exits under `roots`, the roots included, that leave `target`.
    pub open spec fn exits_leaving(
        self,
        roots: Seq<OpId>,
        targets: Seq<(OpId, OpId)>,
        target: OpId,
    ) -> Seq<OpId> {
        let ops = level_order(self.kids(), roots);
        self.leaving(ops, targets, target, ops.len() as int)
    }

    /// The non-local exits that leave `op` from under each of its regions.
    pub open spec fn port_exits(self, op: OpId, targets: Seq<(OpId, OpId)>) -> Seq<Seq<OpId>> {
        self.ir.op(op)->0.regions.map_values(
            |region: RegionId| self.exits_leaving(self.region_ops(region), targets, op),
        )
    }
}

/// An exit leaves `target` from under `roots` just where it is found.
pub proof fn every_exit_is_found(
    context: ContextView,
    roots: Seq<OpId>,
    targets: Seq<(OpId, OpId)>,
    target: OpId,
    exit: OpId,
)
    requires
        all_trees(context.kids(), roots),
    ensures
        context.exits_leaving(roots, targets, target).contains(exit) <==> walk_of(
            context.kids(),
            roots,
        ).contains(exit) && context.has_interface(exit, Interface::NonLocalExit)
            && targets.contains((exit, target)),
{
    let ops = level_order(context.kids(), roots);
    levels_hold_what_walks_hold(context.kids(), roots, exit);
    leaving_are_all(context, ops, targets, target, exit, ops.len() as int);
    assert(ops.take(ops.len() as int) =~= ops);
}

proof fn leaving_are_all(
    context: ContextView,
    ops: Seq<OpId>,
    targets: Seq<(OpId, OpId)>,
    target: OpId,
    exit: OpId,
    n: int,
)
    requires
        0 <= n <= ops.len(),
    ensures
        context.leaving(ops, targets, target, n).contains(exit) <==> ops.take(n).contains(exit)
            && context.has_interface(exit, Interface::NonLocalExit) && targets.contains(
            (exit, target),
        ),
    decreases n,
{
    if n > 0 {
        leaving_are_all(context, ops, targets, target, exit, n - 1);
        let before = context.leaving(ops, targets, target, n - 1);
        crate::seqs::push_contains(before, ops[n - 1]);
        crate::seqs::push_contains(ops.take(n - 1), ops[n - 1]);
        assert(ops.take(n) =~= ops.take(n - 1).push(ops[n - 1]));
    }
}

fn leads_to(targets: &Vec<(OpId, OpId)>, exit: OpId, target: OpId) -> (r: bool)
    ensures
        r == targets@.contains((exit, target)),
{
    let mut i: usize = 0;
    while i < targets.len()
        invariant
            i <= targets.len(),
            forall|k: int| 0 <= k < i ==> targets@[k] != (exit, target),
        decreases targets.len() - i,
    {
        if targets[i].0 == exit && targets[i].1 == target {
            assert(targets@[i as int] == (exit, target));
            return true;
        }
        i += 1;
    }
    false
}

impl Context {
    /// The non-local exits under `roots` that leave `target`, where `targets` says what
    /// each exit leaves.
    pub fn exits_leaving(
        &self,
        roots: &Vec<OpId>,
        targets: &Vec<(OpId, OpId)>,
        target: OpId,
    ) -> (r: Vec<OpId>)
        requires
            self.inv(),
            self@.sound(),
            self@.all_live(roots@),
            all_trees(self@.kids(), roots@),
        ensures
            r@ == self@.exits_leaving(roots@, targets@, target),
    {
        let ops = self.subtree_ops(roots);
        let mut r: Vec<OpId> = Vec::new();
        let mut i: usize = 0;
        while i < ops.len()
            invariant
                self.inv(),
                self@.sound(),
                self@.all_live(ops@),
                i <= ops.len(),
                r@ =~= self@.leaving(ops@, targets@, target, i as int),
            decreases ops.len() - i,
        {
            let op = ops[i];
            assert(self@.ir.op(ops@[i as int]) is Some);
            assert(self@.op_sound(op));
            if self.has_interface(op, Interface::NonLocalExit) && leads_to(targets, op, target) {
                r.push(op);
            }
            i += 1;
        }
        r
    }

    /// The non-local exits that leave `op` from under each of its regions, where
    /// `targets` says what each exit leaves.
    pub fn port_exits(&self, op: OpId, targets: &Vec<(OpId, OpId)>) -> (r: Vec<Vec<OpId>>)
        requires
            self.inv(),
            self@.sound(),
            self@.ir.op(op) is Some,
            forall|i: int|
                0 <= i < self@.ir.op(op)->0.regions.len() ==> all_trees(
                    self@.kids(),
                    self@.region_ops(#[trigger] self@.ir.op(op)->0.regions[i]),
                ),
        ensures
            exit_lists(r@) == self@.port_exits(op, targets@),
            r@.len() == self@.ir.op(op)->0.regions.len(),
    {
        let regions = crate::ir::copy_list(self.regions_of(op));
        let mut r: Vec<Vec<OpId>> = Vec::new();
        let mut i: usize = 0;
        while i < regions.len()
            invariant
                self.inv(),
                self@.sound(),
                regions@ == self@.ir.op(op)->0.regions,
                forall|i: int|
                    0 <= i < regions@.len() ==> all_trees(
                        self@.kids(),
                        self@.region_ops(#[trigger] regions@[i]),
                    ),
                i <= regions.len(),
                r.len() == i,
                forall|k: int|
                    0 <= k < i ==> (#[trigger] r@[k])@ == self@.exits_leaving(
                        self@.region_ops(regions@[k]),
                        targets@,
                        op,
                    ),
            decreases regions.len() - i,
        {
            let roots = self.region_op_ids(regions[i]);
            proof {
                region_ops_are_live(self@, regions@[i as int]);
            }
            r.push(self.exits_leaving(&roots, targets, op));
            i += 1;
        }
        assert(exit_lists(r@) =~= self@.port_exits(op, targets@));
        r
    }
}

fn listed(ops: &Vec<OpId>, op: OpId) -> (r: bool)
    ensures
        r == ops@.contains(op),
{
    let mut i: usize = 0;
    while i < ops.len()
        invariant
            i <= ops.len(),
            forall|k: int| 0 <= k < i ==> ops@[k] != op,
        decreases ops.len() - i,
    {
        if ops[i] == op {
            return true;
        }
        i += 1;
    }
    false
}

proof fn first_state_is_an_operand(context: ContextView, ids: Seq<ValueId>)
    ensures
        forall|k: int|
            0 <= k < context.filtered(ids, true).len() ==> context.ir.value(
                #[trigger] context.filtered(ids, true)[k],
            ) is Some,
    decreases ids.len(),
{
    if ids.len() > 0 {
        first_state_is_an_operand(context, ids.drop_last());
    }
}

} // verus!

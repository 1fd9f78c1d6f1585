//! What holds of an operation whatever its kind, and of the tree under it.
use vstd::prelude::*;
use crate::access::type_attr;
use crate::context::Context;
use crate::context::ContextView;
use crate::dialects::checks::index_bits_of;
use crate::dialects::checks::verify_op;
use crate::error::either;
use crate::error::first_failure;
use crate::error::first_failure_stays;
use crate::error::invalid;
use crate::error::verdict;
use crate::error::Error;
use crate::error::ErrorView;
use crate::forks::conflict_message;
use crate::forks::verify_state_forks;
use crate::ids::BlockId;
use crate::ids::OpId;
use crate::ids::RegionId;
use crate::ids::TypeId;
use crate::ids::ValueId;
use crate::ir::Value;
use crate::layout::spec_failure;
use crate::layout::verify_spec;
use crate::layout::DataLayout;
use crate::layout::DATA_LAYOUT;
use crate::text::cat3;
use crate::text::cat5;
use crate::text::decimal;
use crate::text::decimal_string;
use crate::tree::is_tree;
use crate::tree::walk;
use crate::tree::walk_is_live;
use crate::tree::walk_tree;
use crate::ty::Type;
use crate::ty::TypeView;

verus! {

impl ContextView {
    /// Whether `ty` is the type of scope tokens.
    pub open spec fn is_token_type(self, ty: TypeId) -> bool {
        ty.0 < self.types.len() && self.types[ty.0 as int] == TypeView::Token
    }

    /// Whether one of `arguments` is a scope token.
    pub open spec fn takes_token(self, arguments: Seq<Value>) -> bool {
        exists|i: int| 0 <= i < arguments.len() && self.is_token_type(#[trigger] arguments[i].ty)
    }

    /// Whether a block of `blocks` past the first takes a scope token.
    pub open spec fn later_block_takes_token(self, blocks: Seq<BlockId>) -> bool {
        exists|i: int|
            1 <= i < blocks.len() && self.ir.block(#[trigger] blocks[i]) is Some
                && self.takes_token(self.ir.block(blocks[i])->0.arguments)
    }

    /// Whether `region` takes a scope token where none may enter: on entry unless
    /// it is one of `scopes`, and in any later block.
    pub open spec fn misplaces_token(self, region: RegionId, scopes: Seq<RegionId>) -> bool {
        ||| !scopes.contains(region) && self.takes_token(self.region_ports(region))
        ||| self.later_block_takes_token(self.blocks_of(region))
    }

    /// Whether a region of `op` takes a scope token where none may enter.
    pub open spec fn misplaces_tokens(self, op: OpId, scopes: Seq<RegionId>) -> bool {
        exists|i: int|
            0 <= i < self.ir.op(op)->0.regions.len() && self.misplaces_token(
                #[trigger] self.ir.op(op)->0.regions[i],
                scopes,
            )
    }

    /// Why the scope tokens `op` lets in are wrong.
    pub open spec fn token_failure(self, op: OpId, scopes: Seq<RegionId>) -> Option<Seq<char>> {
        if self.misplaces_tokens(op, scopes) {
            Some("token values are only allowed as loop body entry arguments"@)
        } else if self.is_op(op, "func"@, "func"@) && match self.type_attr(op, "ret_type"@) {
            Some(ty) => self.is_token_type(ty),
            None => false,
        } {
            Some("token values are not allowed in function signatures"@)
        } else {
            None
        }
    }

    /// Why the metadata `op` hands to its nested scopes is wrong.
    pub open spec fn metadata_failure(self, op: OpId) -> Option<Seq<char>> {
        match self.attr(op, DATA_LAYOUT@) {
            Some(value) => spec_failure(value),
            None => None,
        }
    }

    /// Why `value` cannot sit in a slot of `kind` that is, or is not, one for
    /// dependencies.
    pub open spec fn slot_failure(
        self,
        value: ValueId,
        dependency: bool,
        kind: Seq<char>,
    ) -> Option<Seq<char>> {
        if self.ir.value(value) is None || self.is_state(value) == dependency {
            None
        } else if dependency {
            Some("value %"@ + decimal(value.0 as nat) + " sits in a dependency "@ + kind + " slot"@)
        } else {
            Some("dependency %"@ + decimal(value.0 as nat) + " sits in a value "@ + kind + " slot"@)
        }
    }

    /// Why the first of `values` that cannot sit in such a slot cannot.
    pub open spec fn slots_failure(
        self,
        values: Seq<ValueId>,
        dependency: bool,
        kind: Seq<char>,
    ) -> Option<Seq<char>> {
        first_failure(
            |i: int| self.slot_failure(values[i], dependency, kind),
            values.len() as int,
        )
    }

    /// Why the operands and results of `op` are not values first and then
    /// dependencies.
    pub open spec fn partition_failure(self, op: OpId) -> Option<Seq<char>> {
        either(
            either(
                self.slots_failure(self.value_operands(op), false, "operand"@),
                self.slots_failure(self.dep_operands(op), true, "operand"@),
            ),
            either(
                self.slots_failure(self.value_results(op), false, "result"@),
                self.slots_failure(self.dep_results(op), true, "result"@),
            ),
        )
    }

    /// Why `op` is wrong, its own kind's word coming last.
    pub open spec fn op_failure(
        self,
        op: OpId,
        scopes: Seq<RegionId>,
        index: Option<u32>,
        own: Option<Seq<char>>,
    ) -> Option<Seq<char>> {
        either(
            self.token_failure(op, scopes),
            either(
                self.metadata_failure(op),
                either(self.partition_failure(op), self.own_failure(op, index, own)),
            ),
        )
    }
}

/// What a list of complaints says of `op`: the first entry for it.
pub open spec fn complaint(own: Seq<(OpId, Seq<char>)>, op: OpId, n: int) -> Option<Seq<char>>
    decreases n,
{
    if n <= 0 {
        None
    } else {
        match complaint(own, op, n - 1) {
            Some(text) => Some(text),
            None => if own[n - 1].0 == op {
                Some(own[n - 1].1)
            } else {
                None
            },
        }
    }
}

/// What each complaint says.
pub open spec fn complaint_views(own: Seq<(OpId, String)>) -> Seq<(OpId, Seq<char>)> {
    own.map_values(|c: (OpId, String)| (c.0, c.1@))
}

fn is_token_type(context: &Context, ty: TypeId) -> (r: bool)
    requires
        context.inv(),
    ensures
        r == context@.is_token_type(ty),
{
    if ty.0 as usize >= context.type_count() {
        return false;
    }
    match context.get_type_data(ty) {
        Type::Token(_) => true,
        _ => false,
    }
}

fn takes_token(context: &Context, arguments: &Vec<Value>) -> (r: bool)
    requires
        context.inv(),
    ensures
        r == context@.takes_token(arguments@),
{
    let mut i: usize = 0;
    while i < arguments.len()
        invariant
            context.inv(),
            i <= arguments.len(),
            forall|k: int| 0 <= k < i ==> !context@.is_token_type(#[trigger] arguments@[k].ty),
        decreases arguments.len() - i,
    {
        if is_token_type(context, arguments[i].ty) {
            assert(context@.is_token_type(arguments@[i as int].ty));
            return true;
        }
        i += 1;
    }
    false
}

fn misplaces_token(context: &Context, region: RegionId, scopes: &Vec<RegionId>) -> (r: bool)
    requires
        context.inv(),
    ensures
        r == context@.misplaces_token(region, scopes@),
{
    let mut scoped: bool = false;
    let mut i: usize = 0;
    while i < scopes.len()
        invariant
            i <= scopes.len(),
            scoped == exists|k: int| 0 <= k < i && #[trigger] scopes@[k] == region,
        decreases scopes.len() - i,
    {
        if scopes[i] == region {
            assert(scopes@[i as int] == region);
            scoped = true;
        }
        i += 1;
    }
    assert(scoped == scopes@.contains(region));
    if !scoped && takes_token(context, &context.region_ports(region)) {
        return true;
    }
    let blocks = context.region_block_ids(region);
    let mut i: usize = 1;
    while i < blocks.len()
        invariant
            context.inv(),
            1 <= i,
            blocks@ == context@.blocks_of(region),
            forall|k: int|
                1 <= k < i && k < blocks@.len() && context@.ir.block(#[trigger] blocks@[k]) is Some
                    ==> !context@.takes_token(context@.ir.block(blocks@[k])->0.arguments),
        decreases blocks.len() - i,
    {
        if context.has_block(blocks[i]) {
            if takes_token(context, &context.get_block(blocks[i]).arguments(context)) {
                assert(context@.ir.block(blocks@[i as int]) is Some);
                return true;
            }
        }
        i += 1;
    }
    false
}

/// Checks that scope tokens only enter where a loop body starts: `scopes` are the
/// regions that take one on entry.
pub fn verify_token_region_arguments(
    context: &Context,
    op: OpId,
    scopes: &Vec<RegionId>,
) -> (r: Result<(), Error>)
    requires
        context.inv(),
        context@.readable(op),
    ensures
        verdict(r, context@.token_failure(op, scopes@)),
{
    let regions = context.regions_of(op);
    let mut i: usize = 0;
    while i < regions.len()
        invariant
            context.inv(),
            context@.ir.op(op) is Some,
            regions@ == context@.ir.op(op)->0.regions,
            i <= regions.len(),
            forall|k: int| 0 <= k < i ==> !context@.misplaces_token(#[trigger] regions@[k], scopes@),
        decreases regions.len() - i,
    {
        if misplaces_token(context, regions[i], scopes) {
            assert(context@.misplaces_token(context@.ir.op(op)->0.regions[i as int], scopes@));
            return Err(invalid("token values are only allowed as loop body entry arguments"));
        }
        i += 1;
    }
    assert(!context@.misplaces_tokens(op, scopes@));
    if context.get_op(op).is_name(context, "func", "func") {
        if let Some(ty) = type_attr(context, op, "ret_type") {
            if is_token_type(context, ty) {
                return Err(invalid("token values are not allowed in function signatures"));
            }
        }
    }
    Ok(())
}

/// Checks the metadata specs this operation hands to its nested scopes.
pub fn verify_scoped_metadata(context: &Context, op: OpId) -> (r: Result<(), Error>)
    requires
        context.inv(),
    ensures
        verdict(r, context@.metadata_failure(op)),
{
    match context.with_attr(op, DATA_LAYOUT) {
        Some(value) => verify_spec(value),
        None => Ok(()),
    }
}

fn verify_slots(context: &Context, values: &Vec<ValueId>, dependency: bool, kind: &str) -> (r:
    Result<(), Error>)
    requires
        context.inv(),
    ensures
        verdict(r, context@.slots_failure(values@, dependency, kind@)),
{
    let ghost at = |i: int| context@.slot_failure(values@[i], dependency, kind@);
    let mut i: usize = 0;
    while i < values.len()
        invariant
            context.inv(),
            i <= values.len(),
            at == (|i: int| context@.slot_failure(values@[i], dependency, kind@)),
            first_failure(at, i as int) is None,
        decreases values.len() - i,
    {
        let value: ValueId = values[i];
        assert(at(i as int) == context@.slot_failure(value, dependency, kind@));
        if context.has_value(value) && context.is_state(value) != dependency {
            proof {
                first_failure_stays(at, i + 1, values@.len() as int);
            }
            let number = decimal_string(value.0 as u64);
            let text = if dependency {
                cat5("value %", number.as_str(), " sits in a dependency ", kind, " slot")
            } else {
                cat5("dependency %", number.as_str(), " sits in a value ", kind, " slot")
            };
            return Err(invalid(text.as_str()));
        }
        i += 1;
    }
    Ok(())
}

/// Checks that the operands and results of an operation are values first and then
/// dependencies, as its counts say.
pub fn verify_dep_partitions(context: &Context, op: OpId) -> (r: Result<(), Error>)
    requires
        context.inv(),
        context@.readable(op),
    ensures
        verdict(r, context@.partition_failure(op)),
{
    let handle = context.get_op(op);
    match verify_slots(context, &handle.value_operands(context).to_vec(), false, "operand") {
        Ok(_) => {},
        Err(e) => {
            return Err(e);
        },
    }
    match verify_slots(context, &handle.dep_operands(context).to_vec(), true, "operand") {
        Ok(_) => {},
        Err(e) => {
            return Err(e);
        },
    }
    match verify_slots(context, &handle.value_results(context).to_vec(), false, "result") {
        Ok(_) => {},
        Err(e) => {
            return Err(e);
        },
    }
    verify_slots(context, &handle.dep_results(context).to_vec(), true, "result")
}

fn complaint_of(own: &Vec<(OpId, String)>, op: OpId) -> (r: Option<String>)
    ensures
        match r {
            Some(text) => complaint(complaint_views(own@), op, own@.len() as int) == Some(text@),
            None => complaint(complaint_views(own@), op, own@.len() as int) is None,
        },
{
    let ghost views = complaint_views(own@);
    let mut r: Option<String> = None;
    let mut i: usize = 0;
    while i < own.len()
        invariant
            i <= own.len(),
            views == complaint_views(own@),
            match r {
                Some(text) => complaint(views, op, i as int) == Some(text@),
                None => complaint(views, op, i as int) is None,
            },
        decreases own.len() - i,
    {
        assert(views[i as int] == (own@[i as int].0, own@[i as int].1@));
        if r.is_none() && own[i].0 == op {
            r = Some(own[i].1.clone());
        }
        i += 1;
    }
    r
}

fn verify_one(
    context: &Context,
    op: OpId,
    scopes: &Vec<RegionId>,
    layout: Option<&DataLayout>,
    own: &Vec<(OpId, String)>,
) -> (r: Result<(), Error>)
    requires
        context.inv(),
        context@.sound(),
        context@.ir.op(op) is Some,
    ensures
        verdict(
            r,
            context@.op_failure(
                op,
                scopes@,
                index_bits_of(layout),
                complaint(complaint_views(own@), op, own@.len() as int),
            ),
        ),
{
    assert(context@.op_sound(op));
    match verify_token_region_arguments(context, op, scopes) {
        Ok(_) => {},
        Err(e) => {
            return Err(e);
        },
    }
    match verify_scoped_metadata(context, op) {
        Ok(_) => {},
        Err(e) => {
            return Err(e);
        },
    }
    match verify_dep_partitions(context, op) {
        Ok(_) => {},
        Err(e) => {
            return Err(e);
        },
    }
    let handle = context.get_op(op);
    match complaint_of(own, op) {
        Some(text) => verify_op(context, &handle, layout, Some(text.as_str())),
        None => verify_op(context, &handle, layout, None),
    }
}

impl ContextView {
    /// Why the first operation of the tree under `root` that is wrong is so.
    pub open spec fn tree_failure(
        self,
        root: OpId,
        scopes: Seq<RegionId>,
        index: Option<u32>,
        own: Seq<(OpId, Seq<char>)>,
    ) -> Option<Seq<char>> {
        let ops = walk(self.kids(), root);
        first_failure(
            |i: int|
                self.op_failure(ops[i], scopes, index, complaint(own, ops[i], own.len() as int)),
            ops.len() as int,
        )
    }
}

/// Checks the tree of operations under `root`, an operation before what it holds,
/// and then how its memory states fork. `scopes` are the regions that take a scope
/// token on entry, `layout` is the one in scope, and `own` is what else is known to be
/// wrong: with a rounded evaluation, whose effects decide, or with an operation that
/// this library does not declare.
pub fn verify_op_tree(
    context: &Context,
    root: OpId,
    scopes: &Vec<RegionId>,
    layout: Option<&DataLayout>,
    own: &Vec<(OpId, String)>,
) -> (r: Result<(), Error>)
    requires
        context.inv(),
        context@.sound(),
        context@.ir.op(root) is Some ==> is_tree(context@.kids(), root),
    ensures
        context@.ir.op(root) is None ==> r is Err && r->Err_0@ == ErrorView::VerificationError(
            "operation OpId("@ + decimal(root.0 as nat) + ") does not exist"@,
        ),
        context@.ir.op(root) is Some ==> match context@.tree_failure(
            root,
            scopes@,
            index_bits_of(layout),
            complaint_views(own@),
        ) {
            Some(text) => r is Err && r->Err_0@ == ErrorView::VerificationError(text),
            None => {
                &&& r is Ok <==> forall|value: ValueId|
                    !#[trigger] context@.conflicted(walk(context@.kids(), root), value)
                &&& r is Err ==> exists|value: ValueId| #[trigger]
                    context@.conflicted(walk(context@.kids(), root), value) && r->Err_0@
                        == ErrorView::VerificationError(conflict_message(value))
            },
        },
{
    if !context.has_operation(root) {
        let text = cat3(
            "operation OpId(",
            decimal_string(root.0 as u64).as_str(),
            ") does not exist",
        );
        return Err(invalid(text.as_str()));
    }
    let ops = walk_tree(context, root);
    proof {
        walk_is_live(context@, root);
    }
    let ghost views = complaint_views(own@);
    let ghost at = |i: int|
        context@.op_failure(
            ops@[i],
            scopes@,
            index_bits_of(layout),
            complaint(views, ops@[i], views.len() as int),
        );
    let mut i: usize = 0;
    while i < ops.len()
        invariant
            context.inv(),
            context@.sound(),
            context@.ir.op(root) is Some,
            ops@ == walk(context@.kids(), root),
            context@.all_live(ops@),
            i <= ops.len(),
            views == complaint_views(own@),
            at == (|i: int|
                context@.op_failure(
                    ops@[i],
                    scopes@,
                    index_bits_of(layout),
                    complaint(views, ops@[i], views.len() as int),
                )),
            first_failure(at, i as int) is None,
        decreases ops.len() - i,
    {
        assert(context@.ir.op(ops@[i as int]) is Some);
        assert(context@.op_sound(ops@[i as int]));
        match verify_one(context, ops[i], scopes, layout, own) {
            Ok(_) => {
                assert(at(i as int) is None);
            },
            Err(e) => {
                proof {
                    assert(at(i as int) is Some);
                    first_failure_stays(at, i + 1, ops@.len() as int);
                }
                return Err(e);
            },
        }
        i += 1;
    }
    verify_state_forks(context, root)
}

} // verus!

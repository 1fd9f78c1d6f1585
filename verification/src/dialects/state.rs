//! The `state` dialect: the memory a function is entered with, and the joins and
//! splits of the chains of memory states that order what touches memory.
use vstd::prelude::*;
use crate::context::Context;
use crate::context::ContextView;
use crate::context::OpHandle;
use crate::error::invalid;
use crate::error::verdict;
use crate::error::Error;
use crate::ids::OpId;
use crate::ids::ValueId;
use crate::ir::copy_list;
use crate::text::cat6;
use crate::text::decimal;
use crate::text::decimal_string;

verus! {

/// The memory a function is entered with, one op per chain. It carries a state
/// and nothing else.
#[derive(Debug, Clone, Copy)]
pub struct EntryStateOp(pub OpHandle);

/// The memory every input names, merged. Reads leave memory as they found it, so
/// a fork of reads off one write is joined back into the state the write left; a
/// write, a call or an export after them takes the join, which is the edge that
/// orders it after every read of the fork.
#[derive(Debug, Clone, Copy)]
pub struct JoinOp(pub OpHandle);

/// One memory named once per chain that crosses it. A call touches every object
/// the outside can reach, so the chains it may clobber are joined into the state
/// it observes and split back out of the state it leaves.
#[derive(Debug, Clone, Copy)]
pub struct SplitOp(pub OpHandle);

/// What an operation observes and leaves of memory.
pub trait MemoryState {
    spec fn takes_states(&self, context: ContextView) -> Seq<ValueId>;

    spec fn gives_states(&self, context: ContextView) -> Seq<ValueId>;

    spec fn stands(&self, context: ContextView) -> bool;

    spec fn changes(&self) -> bool;

    /// The states the operation observes.
    fn observed_states(&self, context: &Context) -> (r: Vec<ValueId>)
        requires
            context.inv(),
            self.stands(context@),
        ensures
            r@ == self.takes_states(context@),
    ;

    /// The states the operation leaves.
    fn produced(&self, context: &Context) -> (r: Vec<ValueId>)
        requires
            context.inv(),
            self.stands(context@),
        ensures
            r@ == self.gives_states(context@),
    ;

    /// Whether the operation changes what memory holds.
    fn changes_memory(&self) -> (r: bool)
        ensures
            r == self.changes(),
    ;
}

impl ContextView {
    /// Why an operation does not leave `results` states and nothing else.
    pub open spec fn states_failure(self, op: OpId, results: nat) -> Option<Seq<char>> {
        let left = self.ir.op(op)->0.results;
        if self.filtered(left, true).len() != results || self.filtered(left, false).len() > 0 {
            let (dialect, name) = self.identity(op);
            Some(dialect + "."@ + name + " produces "@ + decimal(results) + " states"@)
        } else {
            None
        }
    }
}

/// Checks that an operation leaves `results` states and nothing else.
fn expect_states(context: &Context, op: OpId, results: usize) -> (r: Result<(), Error>)
    requires
        context.inv(),
        context@.readable(op),
        context@.values_typed(context@.ir.op(op)->0.results),
    ensures
        verdict(r, context@.states_failure(op, results as nat)),
{
    let left = context.results_of(op);
    let states: usize = context.states_among(left.as_slice()).len();
    let values: usize = context.values_among(left.as_slice()).len();
    if states != results || values > 0 {
        let (dialect, name) = context.op_identity(op);
        let message = cat6(
            dialect,
            ".",
            name,
            " produces ",
            decimal_string(results as u64).as_str(),
            " states",
        );
        return Err(invalid(message.as_str()));
    }
    Ok(())
}

impl EntryStateOp {
    /// The chain this op opens.
    pub fn result(&self, context: &Context) -> (v: ValueId)
        requires
            context.inv(),
            context@.ir.op(self.0.id) is Some,
            context@.ir.op(self.0.id)->0.results.len() > 0,
        ensures
            v == context@.ir.op(self.0.id)->0.results[0],
    {
        context.results_of(self.0.id)[0]
    }
}

impl JoinOp {
    /// The merged memory.
    pub fn result(&self, context: &Context) -> (v: ValueId)
        requires
            context.inv(),
            context@.ir.op(self.0.id) is Some,
            context@.ir.op(self.0.id)->0.results.len() > 0,
        ensures
            v == context@.ir.op(self.0.id)->0.results[0],
    {
        context.results_of(self.0.id)[0]
    }

    /// Checks that the join merges something into one state.
    pub fn verify_impl(&self, context: &Context) -> (r: Result<(), Error>)
        requires
            context.inv(),
            context@.readable(self.0.id),
            context@.values_typed(context@.ir.op(self.0.id)->0.results),
        ensures
            verdict(
                r,
                if context@.ir.op(self.0.id)->0.operands.len() == 0 {
                    Some("state.join merges at least one state"@)
                } else {
                    context@.states_failure(self.0.id, 1)
                },
            ),
    {
        if context.operands_of(self.0.id).len() == 0 {
            return Err(invalid("state.join merges at least one state"));
        }
        expect_states(context, self.0.id, 1)
    }
}

impl SplitOp {
    /// The one memory the chains crossing this split carry on from.
    pub fn observed(&self, context: &Context) -> (v: ValueId)
        requires
            context.inv(),
            context@.ir.op(self.0.id) is Some,
            context@.ir.op(self.0.id)->0.operands.len() > 0,
        ensures
            v == context@.ir.op(self.0.id)->0.operands[0],
    {
        context.operands_of(self.0.id)[0]
    }

    /// One state per chain crossing the split.
    pub fn states(&self, context: &Context) -> (r: Vec<ValueId>)
        requires
            context.inv(),
            context@.ir.op(self.0.id) is Some,
        ensures
            r@ == context@.ir.op(self.0.id)->0.results,
    {
        copy_list(context.results_of(self.0.id))
    }

    /// Checks that the split names at least one chain, and states only.
    pub fn verify_impl(&self, context: &Context) -> (r: Result<(), Error>)
        requires
            context.inv(),
            context@.readable(self.0.id),
            context@.values_typed(context@.ir.op(self.0.id)->0.results),
        ensures
            verdict(
                r,
                if context@.ir.op(self.0.id)->0.results.len() == 0 {
                    Some("state.split names at least one chain"@)
                } else {
                    context@.states_failure(
                        self.0.id,
                        context@.ir.op(self.0.id)->0.results.len(),
                    )
                },
            ),
    {
        let n: usize = context.results_of(self.0.id).len();
        if n == 0 {
            return Err(invalid("state.split names at least one chain"));
        }
        expect_states(context, self.0.id, n)
    }
}

impl MemoryState for EntryStateOp {
    open spec fn stands(&self, context: ContextView) -> bool {
        context.ir.op(self.0.id) is Some
    }

    open spec fn takes_states(&self, context: ContextView) -> Seq<ValueId> {
        Seq::empty()
    }

    open spec fn gives_states(&self, context: ContextView) -> Seq<ValueId> {
        context.ir.op(self.0.id)->0.results
    }

    open spec fn changes(&self) -> bool {
        false
    }

    fn observed_states(&self, context: &Context) -> (r: Vec<ValueId>) {
        Vec::new()
    }

    fn produced(&self, context: &Context) -> (r: Vec<ValueId>) {
        copy_list(context.results_of(self.0.id))
    }

    fn changes_memory(&self) -> (r: bool) {
        false
    }
}

impl MemoryState for JoinOp {
    open spec fn stands(&self, context: ContextView) -> bool {
        context.ir.op(self.0.id) is Some
    }

    open spec fn takes_states(&self, context: ContextView) -> Seq<ValueId> {
        context.ir.op(self.0.id)->0.operands
    }

    open spec fn gives_states(&self, context: ContextView) -> Seq<ValueId> {
        context.ir.op(self.0.id)->0.results
    }

    open spec fn changes(&self) -> bool {
        false
    }

    fn observed_states(&self, context: &Context) -> (r: Vec<ValueId>) {
        copy_list(context.operands_of(self.0.id))
    }

    fn produced(&self, context: &Context) -> (r: Vec<ValueId>) {
        copy_list(context.results_of(self.0.id))
    }

    fn changes_memory(&self) -> (r: bool) {
        false
    }
}

impl MemoryState for SplitOp {
    open spec fn stands(&self, context: ContextView) -> bool {
        context.ir.op(self.0.id) is Some
    }

    open spec fn takes_states(&self, context: ContextView) -> Seq<ValueId> {
        context.ir.op(self.0.id)->0.operands
    }

    open spec fn gives_states(&self, context: ContextView) -> Seq<ValueId> {
        context.ir.op(self.0.id)->0.results
    }

    open spec fn changes(&self) -> bool {
        false
    }

    fn observed_states(&self, context: &Context) -> (r: Vec<ValueId>) {
        copy_list(context.operands_of(self.0.id))
    }

    fn produced(&self, context: &Context) -> (r: Vec<ValueId>) {
        copy_list(context.results_of(self.0.id))
    }

    fn changes_memory(&self) -> (r: bool) {
        false
    }
}

} // verus!

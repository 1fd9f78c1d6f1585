//! How long a handle lives: over any sequence of edits, commits and drops of edits, a
//! handle reads as live exactly while the record it was handed out for is there.
use vstd::prelude::*;
use crate::context::ContextView;
use crate::context::OpHandle;
use crate::ir::OpView;
use crate::overlay::ERASED;
use crate::overlay::LayerView;

verus! {

/// One step of a list of records.
pub ghost enum LayerStep<V> {
    /// A record is created.
    Added(V),
    /// The record of an id is replaced by another reading.
    Put(u32, V),
    /// The record of an id is erased.
    Erased(u32),
    /// The edits since the last commit are taken over.
    Committed,
    /// The edits since the last commit are dropped.
    Discarded,
}

/// A list of records and the epoch it is edited in.
pub ghost struct Lived<V> {
    pub layer: LayerView<V>,
    pub epoch: u32,
}

impl<V> Lived<V> {
    /// Whether a step can be taken: there is an id left to create, only a live record
    /// is replaced, and there is an epoch left.
    pub open spec fn takes(self, step: LayerStep<V>) -> bool {
        match step {
            LayerStep::Added(_) => self.layer.now.len() < u32::MAX,
            LayerStep::Put(id, _) => self.layer.at(id) is Some,
            LayerStep::Erased(_) => true,
            LayerStep::Committed => self.epoch + 1 < ERASED,
            LayerStep::Discarded => self.epoch + 1 < ERASED,
        }
    }

    /// What a step leaves.
    pub open spec fn stepped(self, step: LayerStep<V>) -> Self {
        match step {
            LayerStep::Added(v) => Lived { layer: self.layer.added(v), ..self },
            LayerStep::Put(id, v) => Lived { layer: self.layer.put(id, v), ..self },
            LayerStep::Erased(id) => Lived { layer: self.layer.erased(id), ..self },
            LayerStep::Committed => Lived {
                layer: self.layer.committed_at(self.epoch),
                epoch: (self.epoch + 1) as u32,
            },
            LayerStep::Discarded => Lived {
                layer: self.layer.discarded(),
                epoch: (self.epoch + 1) as u32,
            },
        }
    }

    /// What the first `n` of `steps` leave.
    pub open spec fn after(self, steps: Seq<LayerStep<V>>, n: int) -> Self
        decreases n,
    {
        if n <= 0 {
            self
        } else {
            self.after(steps, n - 1).stepped(steps[n - 1])
        }
    }

    /// Whether every step can be taken where it stands.
    pub open spec fn runs(self, steps: Seq<LayerStep<V>>) -> bool {
        forall|i: int| 0 <= i < steps.len() ==> self.after(steps, i).takes(#[trigger] steps[i])
    }
}

/// Whether a record is there, and whether it was as of the last commit.
pub ghost struct Life {
    pub now: bool,
    pub base: bool,
}

/// What becomes of the record `id` names over the first `n` of `steps`, from a point
/// where it was there, and committed or not. It goes when it is erased, and comes back
/// when an erasure that was not committed is dropped; created since the last commit, it
/// goes for good when the edits are dropped, whoever takes its id after.
pub open spec fn life<V>(id: u32, committed: bool, steps: Seq<LayerStep<V>>, n: int) -> Life
    decreases n,
{
    if n <= 0 {
        Life { now: true, base: committed }
    } else {
        let before = life(id, committed, steps, n - 1);
        match steps[n - 1] {
            LayerStep::Erased(other) => if other == id {
                Life { now: false, ..before }
            } else {
                before
            },
            LayerStep::Committed => Life { base: before.now, ..before },
            LayerStep::Discarded => Life { now: before.base, ..before },
            _ => before,
        }
    }
}

spec fn follows<V>(at: Lived<V>, l: Life, id: u32, generation: u32) -> bool {
    let layer = at.layer;
    &&& layer.wf()
    &&& at.epoch < ERASED
    &&& generation <= at.epoch
    &&& id < layer.now.len() || generation < at.epoch
    &&& l.now <==> layer.generation(id, at.epoch) == generation
    &&& l.base <==> id < layer.committed.len() && layer.committed[id as int] is Some
        && layer.stamps[id as int] == generation
}

proof fn lives_follow<V>(
    start: Lived<V>,
    id: u32,
    steps: Seq<LayerStep<V>>,
    n: int,
)
    requires
        0 <= n <= steps.len(),
        start.layer.wf(),
        start.epoch < ERASED,
        start.layer.at(id) is Some,
        start.layer.generation(id, start.epoch) <= start.epoch,
        start.layer.pending(id) || start.layer.committed[id as int] is Some,
        start.runs(steps),
    ensures
        follows(
            start.after(steps, n),
            life(id, !start.layer.pending(id), steps, n),
            id,
            start.layer.generation(id, start.epoch),
        ),
    decreases n,
{
    let generation = start.layer.generation(id, start.epoch);
    let committed = !start.layer.pending(id);
    if n > 0 {
        lives_follow(start, id, steps, n - 1);
        let before = start.after(steps, n - 1);
        assert(before.takes(steps[n - 1]));
        let after = start.after(steps, n);
        let layer = before.layer;
        match steps[n - 1] {
            LayerStep::Added(v) => {
                assert(after.layer.wf());
            },
            LayerStep::Put(other, v) => {
                assert(after.layer.wf());
            },
            LayerStep::Erased(other) => {
                assert(after.layer.wf());
            },
            LayerStep::Committed => {
                assert(after.layer.wf());
            },
            LayerStep::Discarded => {
                assert(after.layer.wf());
            },
        }
    }
}

/// The operations of a context and the epoch they are edited in.
pub open spec fn operations(context: ContextView) -> Lived<OpView> {
    Lived { layer: context.ir.ops, epoch: context.epoch }
}

/// A handle reads as live exactly while the operation it was handed out for is there,
/// over any sequence of edits, commits and drops. Another operation that took the id
/// since does not bring it back.
pub proof fn handles_live_as_long_as_their_operation(
    before: ContextView,
    after: ContextView,
    handle: OpHandle,
    steps: Seq<LayerStep<OpView>>,
)
    requires
        before.ir.wf(),
        before.epoch < ERASED,
        before.ir.op(handle.id) is Some,
        before.ir.ops.pending(handle.id.0) || before.ir.ops.committed[handle.id.0 as int] is Some,
        handle.generation == before.ir.ops.generation(handle.id.0, before.epoch),
        handle.generation <= before.epoch,
        operations(before).runs(steps),
        operations(after) == operations(before).after(steps, steps.len() as int),
    ensures
        after.ir.ops.generation(handle.id.0, after.epoch) == handle.generation <==> life(
            handle.id.0,
            !before.ir.ops.pending(handle.id.0),
            steps,
            steps.len() as int,
        ).now,
{
    lives_follow(operations(before), handle.id.0, steps, steps.len() as int);
}

} // verus!

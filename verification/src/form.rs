//! The dialects a region tree may be spelled in.
use vstd::prelude::*;
use crate::context::Context;
use crate::context::ContextView;
use crate::error::either;
use crate::error::invalid;
use crate::error::verdict;
use crate::error::Error;
use crate::ids::BlockId;
use crate::ids::OpId;
use crate::ids::RegionId;
use crate::ir::copy_list;
use crate::ir::BodyView;
use crate::ir::RegionBody;
use crate::text::cat3;
use crate::text::cat7;
use crate::text::same;
use crate::tree::all_trees;
use crate::tree::is_tree;
use crate::tree::push_reversed;
use crate::tree::stack_step;
use crate::tree::stacked;
use crate::tree::walk;
use crate::tree::walk_of;
use crate::tree::Kids;

verus! {

/// The set of dialects a region tree may be spelled in.
///
/// A form names the dialects that are legal at a point in the pipeline, which
/// turns a precondition like "this runs on CFG form" into a property the pass
/// manager verifies before handing IR to a pass.
#[derive(Debug, Clone, Copy, PartialEq, Eq, Structural)]
pub enum Form {
    /// Unstructured control flow: branches and blocks, no structured regions.
    Cfg,
    /// Structured control flow: regions carry the control structure, no
    /// branches.
    Rvsdg,
}

impl Form {
    /// The name of the form.
    pub open spec fn spelling(self) -> Seq<char> {
        match self {
            Form::Cfg => "cfg"@,
            Form::Rvsdg => "rvsdg"@,
        }
    }

    /// The dialects the form allows.
    pub open spec fn dialects(self) -> Set<Seq<char>> {
        match self {
            Form::Cfg => set!["builtin"@, "cfg"@, "func"@, "state"@, "ptr"@, "vector"@],
            Form::Rvsdg => set!["builtin"@, "scf"@, "state"@, "func"@, "ptr"@, "vector"@],
        }
    }

    /// Unstructured control flow: branches and blocks, no structured regions.
    pub fn cfg() -> (f: Self)
        ensures
            f == Form::Cfg,
    {
        Form::Cfg
    }

    /// Structured control flow: regions carry the control structure, no branches.
    pub fn rvsdg() -> (f: Self)
        ensures
            f == Form::Rvsdg,
    {
        Form::Rvsdg
    }

    /// The name of the form.
    pub fn name(&self) -> (s: &'static str)
        ensures
            s@ == self.spelling(),
    {
        match self {
            Form::Cfg => "cfg",
            Form::Rvsdg => "rvsdg",
        }
    }

    /// Whether the form allows a dialect.
    pub fn allows(&self, dialect: &str) -> (r: bool)
        ensures
            r == self.dialects().contains(dialect@),
    {
        let common = same(dialect, "builtin") || same(dialect, "func") || same(dialect, "state")
            || same(dialect, "ptr") || same(dialect, "vector");
        match self {
            Form::Cfg => common || same(dialect, "cfg"),
            Form::Rvsdg => common || same(dialect, "scf"),
        }
    }
}

/// Why `op` is not of `form`.
pub open spec fn op_form_failure(context: ContextView, op: OpId, form: Form) -> Option<Seq<char>> {
    let (dialect, name) = context.identity(op);
    if form.dialects().contains(dialect) {
        None
    } else {
        Some(
            "operation '"@ + dialect + "."@ + name + "': dialect '"@ + dialect
                + ("' is not part of the '"@ + form.spelling() + "' form"@),
        )
    }
}

/// Why the first of `ops` that is not of `form` is not.
pub open spec fn form_failure(context: ContextView, ops: Seq<OpId>, form: Form, n: int) -> Option<
    Seq<char>,
>
    decreases n,
{
    if n <= 0 {
        None
    } else {
        either(
            form_failure(context, ops, form, n - 1),
            op_form_failure(context, ops[n - 1], form),
        )
    }
}

proof fn form_failure_stays(
    context: ContextView,
    ops: Seq<OpId>,
    form: Form,
    n: int,
    m: int,
)
    requires
        0 < n <= m,
        form_failure(context, ops, form, n) is Some,
    ensures
        form_failure(context, ops, form, m) == form_failure(context, ops, form, n),
    decreases m - n,
{
    if n < m {
        form_failure_stays(context, ops, form, n, m - 1);
    }
}

impl ContextView {
    /// The operations of `blocks`, the last block first.
    pub open spec fn ops_from_last(self, blocks: Seq<BlockId>) -> Seq<OpId>
        decreases blocks.len(),
    {
        if blocks.len() == 0 {
            Seq::empty()
        } else {
            (match self.ir.block(blocks.last()) {
                Some(b) => b.operations,
                None => Seq::empty(),
            }) + self.ops_from_last(blocks.drop_last())
        }
    }

    /// The operations a region holds, its last block first.
    pub open spec fn region_from_last(self, region: RegionId) -> Seq<OpId> {
        match self.ir.region(region) {
            Some(r) => match r.body {
                BodyView::Blocks(blocks) => self.ops_from_last(blocks),
                BodyView::Nodes(_, ops, _) => ops,
            },
            None => Seq::empty(),
        }
    }

    /// The operations of the first `n` of `regions`, region by region.
    pub open spec fn regions_from_last(self, regions: Seq<RegionId>, n: nat) -> Seq<OpId>
        decreases n,
    {
        if n == 0 || n > regions.len() {
            Seq::empty()
        } else {
            self.regions_from_last(regions, (n - 1) as nat) + self.region_from_last(regions[n - 1])
        }
    }

    /// The step a form check takes: the regions of an operation in order, the
    /// blocks of each from the last.
    pub open spec fn form_kids(self) -> Kids {
        |op: OpId|
            match self.ir.op(op) {
                Some(o) => self.regions_from_last(o.regions, o.regions.len()),
                None => Seq::empty(),
            }
    }
}

fn blocks_ops_from_last(context: &Context, blocks: &Vec<BlockId>) -> (r: Vec<OpId>)
    requires
        context.inv(),
        context@.sound(),
        context@.blocks_live(blocks@),
    ensures
        r@ == context@.ops_from_last(blocks@),
        context@.all_live(r@),
{
    let mut r: Vec<OpId> = Vec::new();
    let mut i: usize = blocks.len();
    assert(blocks@.take(i as int) =~= blocks@);
    while i > 0
        invariant
            context.inv(),
            context@.sound(),
            context@.blocks_live(blocks@),
            i <= blocks.len(),
            context@.all_live(r@),
            r@ + context@.ops_from_last(blocks@.take(i as int)) =~= context@.ops_from_last(blocks@),
        decreases i,
    {
        i -= 1;
        let ghost before = r@;
        assert(blocks@.take(i + 1).drop_last() =~= blocks@.take(i as int));
        assert(context@.ir.block(blocks@[i as int]) is Some);
        assert(context@.block_sound(blocks@[i as int]));
        let mut held = copy_list(&context.block_ref(blocks[i]).operations);
        let ghost more = held@;
        r.append(&mut held);
        assert(r@ =~= before + more);
        assert forall|k: int| 0 <= k < r@.len() implies context@.ir.op(
            #[trigger] r@[k],
        ) is Some by {
            if k < before.len() {
                assert(r@[k] == before[k]);
            } else {
                assert(r@[k] == more[k - before.len()]);
            }
        }
    }
    r
}

/// The operations of the regions of `op`, each region's last block first.
fn form_children(context: &Context, op: OpId) -> (r: Vec<OpId>)
    requires
        context.inv(),
        context@.sound(),
        context@.ir.op(op) is Some,
    ensures
        r@ == (context@.form_kids())(op),
        context@.all_live(r@),
{
    let regions = context.regions_of(op);
    let mut r: Vec<OpId> = Vec::new();
    let mut i: usize = 0;
    while i < regions.len()
        invariant
            context.inv(),
            context@.sound(),
            context@.ir.op(op) is Some,
            regions@ == context@.ir.op(op)->0.regions,
            i <= regions.len(),
            r@ == context@.regions_from_last(regions@, i as nat),
            context@.all_live(r@),
        decreases regions.len() - i,
    {
        let ghost before = r@;
        assert(context@.op_sound(op));
        assert(context@.ir.region(regions@[i as int]) is Some);
        assert(context@.region_sound(regions@[i as int]));
        let mut held = match &context.region_ref(regions[i]).body {
            RegionBody::Blocks(blocks) => blocks_ops_from_last(context, blocks),
            RegionBody::Nodes { ports: _, ops, results: _ } => copy_list(ops),
        };
        let ghost more = held@;
        r.append(&mut held);
        assert(r@ =~= before + more);
        assert forall|k: int| 0 <= k < r@.len() implies context@.ir.op(
            #[trigger] r@[k],
        ) is Some by {
            if k < before.len() {
                assert(r@[k] == before[k]);
            } else {
                assert(r@[k] == more[k - before.len()]);
            }
        }
        i += 1;
    }
    r
}

/// Checks that every operation under `root` belongs to a dialect `form` allows.
pub fn verify_form(context: &Context, root: OpId, form: &Form) -> (r: Result<(), Error>)
    requires
        context.inv(),
        context@.sound(),
        context@.ir.op(root) is Some,
        is_tree(context@.form_kids(), root),
    ensures
        verdict(
            r,
            form_failure(
                context@,
                walk(context@.form_kids(), root),
                *form,
                walk(context@.form_kids(), root).len() as int,
            ),
        ),
{
    let ghost kids = context@.form_kids();
    let ghost all = walk(kids, root);
    let ghost mut done: int = 0;
    let mut stack: Vec<OpId> = Vec::new();
    stack.push(root);
    proof {
        assert(stacked(stack@) =~= seq![root]);
        assert(seq![root].skip(1) =~= Seq::<OpId>::empty());
        assert(walk_of(kids, seq![root].skip(1)) =~= Seq::<OpId>::empty());
        assert(walk_of(kids, stacked(stack@)) =~= all);
        assert(all.skip(0) =~= all);
    }
    while stack.len() > 0
        invariant
            context.inv(),
            context@.sound(),
            kids == context@.form_kids(),
            all == walk(kids, root),
            all_trees(kids, stack@),
            context@.all_live(stack@),
            0 <= done <= all.len(),
            walk_of(kids, stacked(stack@)) =~= all.skip(done),
            form_failure(context@, all, *form, done) is None,
        decreases walk_of(kids, stacked(stack@)).len(),
    {
        let ghost before = stack@;
        let op = stack.pop().unwrap();
        assert(context@.ir.op(before[before.len() - 1]) is Some);
        assert(context@.op_sound(op));
        let more = form_children(context, op);
        proof {
            stack_step(kids, before, more@);
            assert(all.skip(done)[0] == op);
            assert(all[done] == op);
        }
        let (dialect, name) = context.op_identity(op);
        if !form.allows(dialect) {
            proof {
                form_failure_stays(context@, all, *form, done + 1, all.len() as int);
            }
            let tail = cat3("' is not part of the '", form.name(), "' form");
            let message = cat7(
                "operation '",
                dialect,
                ".",
                name,
                "': dialect '",
                dialect,
                tail.as_str(),
            );
            return Err(invalid(message.as_str()));
        }
        let ghost rest = stack@;
        push_reversed(&mut stack, &more);
        proof {
            let next = rest + more@.reverse();
            assert forall|k: int| 0 <= k < next.len() implies context@.ir.op(
                #[trigger] next[k],
            ) is Some by {
                if k < rest.len() {
                    assert(next[k] == before[k]);
                } else {
                    assert(next[k] == more@[more@.len() - 1 - (k - rest.len())]);
                }
            }
            assert(walk_of(kids, stacked(stack@)) =~= all.skip(done + 1)) by {
                let w = seq![op] + walk_of(kids, stacked(stack@));
                assert(w =~= all.skip(done));
                assert(w.skip(1) =~= walk_of(kids, stacked(stack@)));
                assert(all.skip(done).skip(1) =~= all.skip(done + 1));
            }
            done = done + 1;
        }
    }
    assert(stacked(stack@) =~= Seq::<OpId>::empty());
    assert(all.skip(done).len() == 0);
    Ok(())
}

/// A tree is of a form exactly when every operation in it is of a dialect the
/// form allows.
pub proof fn form_holds_everywhere(context: ContextView, ops: Seq<OpId>, form: Form, n: int)
    requires
        0 <= n <= ops.len(),
    ensures
        form_failure(context, ops, form, n) is None <==> forall|i: int|
            0 <= i < n ==> form.dialects().contains(context.identity(#[trigger] ops[i]).0),
    decreases n,
{
    if n > 0 {
        form_holds_everywhere(context, ops, form, n - 1);
    }
}

} // verus!

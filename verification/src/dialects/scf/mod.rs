//! Structured control flow: a loop and a switch whose bindings are declared, and
//! counted loops that pin a loop's shape.
pub mod nodes;
pub mod ordered;
pub mod print;
pub mod syntax;

use vstd::prelude::*;
use crate::context::Context;
use crate::context::ContextView;
use crate::context::OpHandle;
use crate::error::first_failure;
use crate::error::first_failure_stays;
use crate::error::invalid;
use crate::error::verdict;
use crate::error::Error;
use crate::ids::BlockId;
use crate::ids::OpId;
use crate::ids::RegionId;
use crate::ids::ValueId;
use crate::interfaces::Terminator;
use crate::ir::BodyView;
use crate::ir::Value;
use crate::text::cat2;
use crate::text::cat4;
use crate::text::cat5;
use crate::text::decimal;
use crate::text::decimal_string;

verus! {

/// The back edge of a counted loop over a block list: it names what the next
/// iteration carries. An unordered body names its results outright and has no
/// terminator, so nothing else needs this.
#[derive(Debug, Clone, Copy)]
pub struct YieldOp(pub OpHandle);

impl Terminator for YieldOp {
    open spec fn terminates(&self, context: ContextView) -> bool {
        true
    }

    open spec fn successor_blocks(&self, context: ContextView) -> Seq<BlockId> {
        Seq::empty()
    }

    fn successors(&self, context: &Context) -> (r: Vec<BlockId>) {
        Vec::new()
    }
}

impl ContextView {
    /// The blocks of an ordered region.
    pub open spec fn blocks_of(self, region: RegionId) -> Seq<BlockId> {
        match self.ir.region(region) {
            Some(r) => match r.body {
                BodyView::Blocks(blocks) => blocks,
                BodyView::Nodes(_, _, _) => Seq::empty(),
            },
            None => Seq::empty(),
        }
    }

    /// The last operation of the first block of a region.
    pub open spec fn latch(self, region: RegionId) -> Option<OpId> {
        let blocks = self.blocks_of(region);
        if blocks.len() == 0 {
            None
        } else {
            let ops = self.ir.block(blocks[0])->0.operations;
            if ops.len() == 0 {
                None
            } else {
                Some(ops.last())
            }
        }
    }

    /// Why the values a body yields do not fit the ports past the counter.
    pub open spec fn yield_failure(
        self,
        name: Seq<char>,
        ports: Seq<Value>,
        yielded: Seq<ValueId>,
    ) -> Option<Seq<char>> {
        if yielded.len() + 1 != ports.len() {
            Some(
                name + " carries "@ + decimal((ports.len() - 1) as nat)
                    + " values past its counter but its body yields "@ + decimal(yielded.len()),
            )
        } else {
            first_failure(
                |i: int|
                    if ports[i + 1].ty == self.type_of(yielded[i]) {
                        None
                    } else {
                        Some(
                            name + " port "@ + decimal((i + 1) as nat)
                                + " and the value its body yields differ in type"@,
                        )
                    },
                yielded.len() as int,
            )
        }
    }

    /// Why the back edge of a counted loop over blocks is wrong.
    pub open spec fn latch_failure(
        self,
        name: Seq<char>,
        unended: Seq<char>,
        body: RegionId,
        ports: Seq<Value>,
        results: nat,
    ) -> Option<Seq<char>> {
        if results != ports.len() {
            Some(
                name + " carries "@ + decimal(ports.len()) + " ports but has "@ + decimal(results)
                    + " results"@,
            )
        } else if self.blocks_of(body).len() == 0 {
            Some(name + " has an empty body"@)
        } else {
            match self.latch(body) {
                None => Some(name + " body has no terminator"@),
                Some(op) => if !self.is_op(op, "scf"@, "yield"@) {
                    Some(unended)
                } else {
                    self.yield_failure(name, ports, self.value_operands(op))
                },
            }
        }
    }

    /// Whether the back edge of a counted loop over blocks can be read.
    pub open spec fn latch_wf(self, body: RegionId) -> bool {
        &&& self.ir.region(body) is Some
        &&& self.region_sound(body)
        &&& self.blocks_of(body).len() > 0 ==> self.block_sound(self.blocks_of(body)[0])
        &&& match self.latch(body) {
            Some(op) => self.op_sound(op) && self.values_typed(self.ir.op(op)->0.operands),
            None => true,
        }
    }
}

fn verify_yield(context: &Context, name: &str, ports: &Vec<Value>, yielded: &Vec<ValueId>) -> (r:
    Result<(), Error>)
    requires
        context.inv(),
        ports.len() > 0,
        context@.values_typed(yielded@),
    ensures
        verdict(r, context@.yield_failure(name@, ports@, yielded@)),
{
    if yielded.len() != ports.len() - 1 {
        let message = cat4(
            name,
            cat2(" carries ", decimal_string((ports.len() - 1) as u64).as_str()).as_str(),
            " values past its counter but its body yields ",
            decimal_string(yielded.len() as u64).as_str(),
        );
        proof {
            assert(message@ =~= name@ + " carries "@ + decimal((ports.len() - 1) as nat)
                + " values past its counter but its body yields "@ + decimal(
                yielded@.len(),
            ));
        }
        return Err(invalid(message.as_str()));
    }
    let ghost view = context@;
    let ghost at = |i: int|
        if ports@[i + 1].ty == view.type_of(yielded@[i]) {
            None
        } else {
            Some(
                name@ + " port "@ + decimal((i + 1) as nat)
                    + " and the value its body yields differ in type"@,
            )
        };
    let mut i: usize = 0;
    while i < yielded.len()
        invariant
            context.inv(),
            view == context@,
            view.values_typed(yielded@),
            i <= yielded.len(),
            yielded.len() + 1 == ports.len(),
            at == (|i: int|
                if ports@[i + 1].ty == view.type_of(yielded@[i]) {
                    None
                } else {
                    Some(
                        name@ + " port "@ + decimal((i + 1) as nat)
                            + " and the value its body yields differ in type"@,
                    )
                }),
            first_failure(at, i as int) is None,
        decreases yielded.len() - i,
    {
        assert(view.ir.value(yielded@[i as int]) is Some);
        if ports[i + 1].ty != context.get_value(yielded[i]).ty {
            proof {
                assert(at(i as int) is Some);
                first_failure_stays(at, i + 1, yielded@.len() as int);
            }
            let message = cat4(
                name,
                " port ",
                decimal_string((i + 1) as u64).as_str(),
                " and the value its body yields differ in type",
            );
            return Err(invalid(message.as_str()));
        }
        assert(at(i as int) is None);
        i += 1;
    }
    Ok(())
}

/// Checks the back edge of a counted loop over blocks: the loop has one result
/// per port, and its body ends in a yield that names the next value of each port
/// past the counter, in the same types.
pub fn verify_latch(
    context: &Context,
    name: &str,
    unended: &str,
    body: RegionId,
    ports: &Vec<Value>,
    results: usize,
) -> (r: Result<(), Error>)
    requires
        context.inv(),
        context@.latch_wf(body),
        ports.len() > 0,
    ensures
        verdict(
            r,
            context@.latch_failure(name@, unended@, body, ports@, results as nat),
        ),
{
    if results != ports.len() {
        let message = cat5(
            name,
            cat2(" carries ", decimal_string(ports.len() as u64).as_str()).as_str(),
            " ports but has ",
            decimal_string(results as u64).as_str(),
            " results",
        );
        proof {
            assert(message@ =~= name@ + " carries "@ + decimal(ports@.len()) + " ports but has "@
                + decimal(results as nat) + " results"@);
        }
        return Err(invalid(message.as_str()));
    }
    let blocks = context.region_block_ids(body);
    if blocks.len() == 0 {
        return Err(invalid(cat2(name, " has an empty body").as_str()));
    }
    assert(context@.ir.block(context@.blocks_of(body)[0]) is Some);
    let entry = context.block_ref(blocks[0]);
    if entry.operations.len() == 0 {
        return Err(invalid(cat2(name, " body has no terminator").as_str()));
    }
    let latch = entry.operations[entry.operations.len() - 1];
    assert(context@.latch(body) == Some(latch));
    assert(context@.ir.op(
        context@.ir.block(context@.blocks_of(body)[0])->0.operations.last(),
    ) is Some);
    let handle = context.get_op(latch);
    if !handle.is_name(context, "scf", "yield") {
        return Err(invalid(unended));
    }
    let yielded = handle.value_operands(context).to_vec();
    proof {
        let all = context@.ir.op(latch)->0.operands;
        assert forall|i: int| 0 <= i < yielded@.len() implies context@.ir.value(
            #[trigger] yielded@[i],
        ) is Some && context@.value_sound(yielded@[i]) by {
            assert(yielded@[i] == all[i]);
        }
    }
    verify_yield(context, name, ports, &yielded)
}

/// Why a bound of a counted loop does not count as its lower bound does.
pub open spec fn counter_failure(
    context: ContextView,
    name: Seq<char>,
    lower: ValueId,
    upper: ValueId,
    step: ValueId,
) -> Option<Seq<char>> {
    if context.type_of(upper) != context.type_of(lower) {
        Some(name + " upper bound counts through a different type than its lower bound"@)
    } else if context.type_of(step) != context.type_of(lower) {
        Some(name + " step counts through a different type than its lower bound"@)
    } else {
        None
    }
}

/// A counted loop counts through one type: whatever `!index` or integer width
/// the lower bound names, the upper bound and step name too. Mixing widths would
/// leave the counter's arithmetic, and so its trip count, undefined.
pub fn verify_counter_type(
    context: &Context,
    name: &str,
    lower: ValueId,
    upper: ValueId,
    step: ValueId,
) -> (r: Result<(), Error>)
    requires
        context.inv(),
        context@.ir.value(lower) is Some,
        context@.ir.value(upper) is Some,
        context@.ir.value(step) is Some,
    ensures
        verdict(r, counter_failure(context@, name@, lower, upper, step)),
{
    let expected = context.get_value(lower).ty;
    if context.get_value(upper).ty != expected {
        return Err(
            invalid(
                cat2(
                    name,
                    " upper bound counts through a different type than its lower bound",
                ).as_str(),
            ),
        );
    }
    if context.get_value(step).ty != expected {
        return Err(
            invalid(
                cat2(
                    name,
                    " step counts through a different type than its lower bound",
                ).as_str(),
            ),
        );
    }
    Ok(())
}

/// Why ports do not have the types of what they take first, `shift` ports past
/// the first.
pub open spec fn inits_failure(
    context: ContextView,
    name: Seq<char>,
    ports: Seq<Value>,
    inits: Seq<ValueId>,
    shift: int,
) -> Option<Seq<char>> {
    first_failure(
        |i: int|
            if ports[i + shift].ty == context.type_of(inits[i]) {
                None
            } else {
                Some(
                    name + " port "@ + decimal((i + shift) as nat)
                        + " and its init differ in type"@,
                )
            },
        inits.len() as int,
    )
}

/// Checks that ports have the types of what they take first, `shift` ports past
/// the first.
pub fn verify_inits(
    context: &Context,
    name: &str,
    ports: &Vec<Value>,
    inits: &Vec<ValueId>,
    shift: usize,
) -> (r: Result<(), Error>)
    requires
        context.inv(),
        context@.values_typed(inits@),
        inits.len() + shift <= ports.len(),
    ensures
        verdict(r, inits_failure(context@, name@, ports@, inits@, shift as int)),
{
    let ghost view = context@;
    let ghost at = |i: int|
        if ports@[i + shift as int].ty == view.type_of(inits@[i]) {
            None
        } else {
            Some(
                name@ + " port "@ + decimal((i + shift as int) as nat)
                    + " and its init differ in type"@,
            )
        };
    let mut i: usize = 0;
    while i < inits.len()
        invariant
            context.inv(),
            view == context@,
            view.values_typed(inits@),
            i <= inits.len(),
            inits.len() + shift <= ports.len(),
            at == (|i: int|
                if ports@[i + shift as int].ty == view.type_of(inits@[i]) {
                    None
                } else {
                    Some(
                        name@ + " port "@ + decimal((i + shift as int) as nat)
                            + " and its init differ in type"@,
                    )
                }),
            first_failure(at, i as int) is None,
        decreases inits.len() - i,
    {
        assert(view.ir.value(inits@[i as int]) is Some);
        if ports[i + shift].ty != context.get_value(inits[i]).ty {
            proof {
                assert(at(i as int) is Some);
                first_failure_stays(at, i + 1, inits@.len() as int);
            }
            let message = cat4(
                name,
                " port ",
                decimal_string((i + shift) as u64).as_str(),
                " and its init differ in type",
            );
            return Err(invalid(message.as_str()));
        }
        assert(at(i as int) is None);
        i += 1;
    }
    Ok(())
}

} // verus!

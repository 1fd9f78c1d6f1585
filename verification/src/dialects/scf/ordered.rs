//! The counted loop a frontend raises while its body is still a block list.
//!
//! Until it is turned into the unordered form it only pins the shape: the
//! counter enters as port 0 and every other port takes an init, and the body's
//! `scf.yield` names the next value of each port past the counter.
use vstd::prelude::*;
use crate::context::Context;
use crate::context::ContextView;
use crate::context::OpHandle;
use crate::dependency::value_name;
use crate::dependency::value_text;
use crate::dialects::builtin::control::operand_slice;
use crate::dialects::scf::counter_failure;
use crate::dialects::scf::inits_failure;
use crate::dialects::scf::verify_counter_type;
use crate::dialects::scf::verify_inits;
use crate::dialects::scf::verify_latch;
use crate::error::either;
use crate::error::invalid;
use crate::error::verdict;
use crate::error::Error;
use crate::ids::OpId;
use crate::ids::ValueId;
use crate::interfaces::CountedLoop;
use crate::interfaces::ExitScope;
use crate::interfaces::ExitScopeKind;
use crate::text::cat2;
use crate::text::cat5;
use crate::text::decimal;
use crate::text::decimal_string;

verus! {

/// A counted loop over a block list.
#[derive(Debug, Clone, Copy)]
pub struct OrderedForOp(pub OpHandle);

impl ContextView {
    /// Whether a counted loop over blocks has its bounds and a body, and all it
    /// names is live and typed.
    pub open spec fn ordered_for_wf(self, op: OpId) -> bool {
        &&& self.readable(op)
        &&& self.value_operands(op).len() >= 3
        &&& self.values_typed(self.ir.op(op)->0.operands)
        &&& self.ir.op(op)->0.regions.len() > 0
        &&& self.latch_wf(self.ir.op(op)->0.regions[0])
    }

    /// What the ports past the counter take on the first iteration: the operands
    /// between the lower bound and the last two.
    pub open spec fn ordered_inits(self, op: OpId) -> Seq<ValueId> {
        let operands = self.ir.op(op)->0.operands;
        operands.subrange(1, operands.len() - 2)
    }

    /// Why a counted loop over blocks is wrong.
    pub open spec fn ordered_for_failure(self, op: OpId) -> Option<Seq<char>> {
        let body = self.ir.op(op)->0.regions[0];
        let ports = self.region_ports(body);
        let inits = self.ordered_inits(op);
        let values = self.value_operands(op);
        either(
            counter_failure(
                self,
                "scf.ordered_for"@,
                values[0],
                values[values.len() - 2],
                values[values.len() - 1],
            ),
            if ports.len() != inits.len() + 1 {
                Some(
                    "scf.ordered_for takes "@ + decimal(inits.len())
                        + " initial values but its body carries "@ + decimal(
                        if ports.len() == 0 {
                            0
                        } else {
                            (ports.len() - 1) as nat
                        },
                    ) + " ports past the counter"@,
                )
            } else {
                either(
                    inits_failure(self, "scf.ordered_for"@, ports, inits, 1),
                    self.latch_failure(
                        "scf.ordered_for"@,
                        "an scf.ordered_for body must end in scf.yield"@,
                        body,
                        ports,
                        self.value_results(op).len(),
                    ),
                )
            },
        )
    }

    /// What stands before the port bindings of a counted loop: its counter and
    /// its bounds.
    pub open spec fn counting(
        self,
        name: Seq<char>,
        counter: ValueId,
        lower: ValueId,
        upper: ValueId,
        step: ValueId,
    ) -> Seq<char> {
        name + (" "@ + value_name(counter)) + (" = "@ + value_name(lower)) + (" to "@ + value_name(
            upper,
        )) + (" step "@ + value_name(step))
    }
}

/// What stands before the port bindings of a counted loop.
pub fn counting_text(
    context: &Context,
    name: &str,
    counter: ValueId,
    lower: ValueId,
    upper: ValueId,
    step: ValueId,
) -> (s: String)
    ensures
        s@ == context@.counting(name@, counter, lower, upper, step),
{
    cat5(
        name,
        cat2(" ", value_text(counter).as_str()).as_str(),
        cat2(" = ", value_text(lower).as_str()).as_str(),
        cat2(" to ", value_text(upper).as_str()).as_str(),
        cat2(" step ", value_text(step).as_str()).as_str(),
    )
}

impl ExitScope for OrderedForOp {
    open spec fn scope_kind(&self) -> ExitScopeKind {
        ExitScopeKind::Loop
    }

    fn exit_scope(&self) -> (k: ExitScopeKind) {
        ExitScopeKind::Loop
    }
}

impl CountedLoop for OrderedForOp {
    open spec fn counts(&self, context: ContextView) -> bool {
        context.readable(self.0.id) && context.value_operands(self.0.id).len() >= 3
    }

    open spec fn lower(&self, context: ContextView) -> ValueId {
        context.value_operands(self.0.id)[0]
    }

    open spec fn upper(&self, context: ContextView) -> ValueId {
        let values = context.value_operands(self.0.id);
        values[values.len() - 2]
    }

    open spec fn gain(&self, context: ContextView) -> ValueId {
        let values = context.value_operands(self.0.id);
        values[values.len() - 1]
    }

    open spec fn counter_port(&self, context: ContextView) -> Option<usize> {
        Some(0)
    }

    fn lower_bound(&self, context: &Context) -> (v: ValueId) {
        self.0.value_operands(context).at(0)
    }

    fn upper_bound(&self, context: &Context) -> (v: ValueId) {
        let values = self.0.value_operands(context);
        values.at(values.len() - 2)
    }

    fn step(&self, context: &Context) -> (v: ValueId) {
        let values = self.0.value_operands(context);
        values.at(values.len() - 1)
    }

    fn induction(&self, context: &Context) -> (r: Option<usize>) {
        Some(0)
    }
}

proof fn bounds_are_live(context: ContextView, op: OpId)
    requires
        context.ordered_for_wf(op),
    ensures
        ({
            let values = context.value_operands(op);
            &&& context.ir.value(values[0]) is Some
            &&& context.ir.value(values[values.len() - 2]) is Some
            &&& context.ir.value(values[values.len() - 1]) is Some
        }),
{
    let values = context.value_operands(op);
    let all = context.ir.op(op)->0.operands;
    assert(values[0] == all[0]);
    assert(values[values.len() - 2] == all[values.len() - 2]);
    assert(values[values.len() - 1] == all[values.len() - 1]);
}

impl OrderedForOp {
    /// What the ports past the counter take on the first iteration: the declared
    /// inits, then the states threading has carried in.
    pub fn inits(&self, context: &Context) -> (r: Vec<ValueId>)
        requires
            context.inv(),
            context@.ir.op(self.0.id) is Some,
            context@.ir.op(self.0.id)->0.operands.len() >= 3,
        ensures
            r@ == context@.ordered_inits(self.0.id),
    {
        let n: usize = context.operands_of(self.0.id).len();
        operand_slice(context, self.0.id, 1, n - 2)
    }

    /// Checks that the loop counts through one type, that its ports take its
    /// inits, and that its body yields what the next iteration carries.
    pub fn verify_impl(&self, context: &Context) -> (r: Result<(), Error>)
        requires
            context.inv(),
            context@.ordered_for_wf(self.0.id),
        ensures
            verdict(r, context@.ordered_for_failure(self.0.id)),
    {
        proof {
            bounds_are_live(context@, self.0.id);
        }
        if let Err(e) = verify_counter_type(
            context,
            "scf.ordered_for",
            self.lower_bound(context),
            self.upper_bound(context),
            self.step(context),
        ) {
            return Err(e);
        }
        let body = context.regions_of(self.0.id)[0];
        let ports = context.region_ports(body);
        let inits = self.inits(context);
        if ports.len() == 0 || ports.len() - 1 != inits.len() {
            let past: usize = if ports.len() == 0 {
                0
            } else {
                ports.len() - 1
            };
            let message = cat5(
                "scf.ordered_for takes ",
                decimal_string(inits.len() as u64).as_str(),
                " initial values but its body carries ",
                decimal_string(past as u64).as_str(),
                " ports past the counter",
            );
            return Err(invalid(message.as_str()));
        }
        proof {
            let all = context@.ir.op(self.0.id)->0.operands;
            assert forall|i: int| 0 <= i < inits@.len() implies context@.ir.value(
                #[trigger] inits@[i],
            ) is Some && context@.value_sound(inits@[i]) by {
                assert(inits@[i] == all[i + 1]);
            }
        }
        if let Err(e) = verify_inits(context, "scf.ordered_for", &ports, &inits, 1) {
            return Err(e);
        }
        let results: usize = self.0.value_results(context).len();
        verify_latch(
            context,
            "scf.ordered_for",
            "an scf.ordered_for body must end in scf.yield",
            body,
            &ports,
            results,
        )
    }
}

} // verus!

//! Printing counted loops. The text elides the comparison and the addition the
//! shape of a counted loop pins, where nothing else uses them.
use vstd::prelude::*;
use crate::binding::ids_of;
use crate::binding::port_bindings;
use crate::binding::port_ids;
use crate::binding::print_port_bindings;
use crate::binding::slice;
use crate::context::Context;
use crate::context::ContextView;
use crate::dependency::print_result_prefix;
use crate::dependency::result_prefix;
use crate::dialects::scf::nodes::ForOp;
use crate::dialects::scf::ordered::counting_text;
use crate::dialects::scf::ordered::OrderedForOp;
use crate::ids::OpId;
use crate::ids::ValueId;
use crate::interfaces::CountedLoop;
use crate::interfaces::IndexRange;
use crate::interfaces::Theta;
use crate::ir::use_list;
use crate::ir_formatter::FormatView;
use crate::ir_formatter::IRFormatter;

verus! {

/// Where a formatter stands after the head of a counted loop: its results, its
/// counter and bounds, and what it carries past the counter.
pub open spec fn counted_head(
    f: FormatView,
    context: ContextView,
    op: OpId,
    name: Seq<char>,
    ports: Seq<ValueId>,
    bounds: (ValueId, ValueId, ValueId),
    inits: Seq<ValueId>,
) -> FormatView {
    let prefixed = if context.ir.op(op)->0.results.len() == 0 {
        f
    } else {
        f.written(result_prefix(context, op))
    };
    let counted = prefixed.written(
        context.counting(name, ports[0], bounds.0, bounds.1, bounds.2),
    );
    if ports.len() <= 1 {
        counted
    } else {
        counted.written(port_bindings(ports.skip(1), inits))
    }
}

fn rest(values: &Vec<ValueId>) -> (r: Vec<ValueId>)
    requires
        values.len() > 0,
    ensures
        r@ == values@.skip(1),
{
    let r = slice(values, &IndexRange::new(1, values.len()));
    assert(r@ =~= values@.skip(1));
    r
}

impl OrderedForOp {
    /// Prints the loop, its body printed as `printed`.
    pub fn custom_print(&self, context: &Context, fmt: &mut IRFormatter, printed: &str)
        requires
            context.inv(),
            context@.ordered_for_wf(self.0.id),
            context@.region_ports(context@.ir.op(self.0.id)->0.regions[0]).len() > 0,
        ensures
            final(fmt)@ == counted_head(
                old(fmt)@,
                context@,
                self.0.id,
                "scf.ordered_for"@,
                ids_of(context@.region_ports(context@.ir.op(self.0.id)->0.regions[0])),
                (self.lower(context@), self.upper(context@), self.gain(context@)),
                context@.ordered_inits(self.0.id),
            ).written(printed@),
    {
        let ports = port_ids(context, context.regions_of(self.0.id)[0]);
        let inits = self.inits(context);
        print_result_prefix(fmt, context, &self.0);
        let text = counting_text(
            context,
            "scf.ordered_for",
            ports[0],
            self.lower_bound(context),
            self.upper_bound(context),
            self.step(context),
        );
        fmt.write(text.as_str());
        print_port_bindings(fmt, rest(&ports).as_slice(), inits.as_slice());
        fmt.write(printed);
    }
}

impl ContextView {
    /// Whether a counted loop has the shape its text relies on: a counter, what
    /// it starts from, and, where its body is unordered, all it hands on.
    pub open spec fn prints_counted(self, op: OpId) -> bool {
        let body = self.ir.op(op)->0.regions[0];
        &&& self.for_wf(op)
        &&& self.region_ports(body).len() > 0
        &&& self.is_nodes(body) ==> {
            &&& self.binding(op).continue_.start < self.binding(op).continue_.end
            &&& self.binding(op).continue_.end <= self.region_results(body).len()
            &&& self.values_typed(self.region_results(body))
        }
    }

    /// The values an unordered body of a counted loop is printed to yield: what
    /// the next iteration carries past the counter.
    pub open spec fn shown_results(self, op: OpId) -> Seq<ValueId> {
        let results = self.region_results(self.ir.op(op)->0.regions[0]);
        results.subrange(
            self.binding(op).continue_.start + 1,
            self.binding(op).continue_.end as int,
        )
    }

    /// The operation that defines `value` where the text of a counted loop leaves
    /// it out: nothing uses the value and it is not shown.
    pub open spec fn elided(self, op: OpId, value: ValueId) -> Seq<OpId> {
        let defined = self.ir.value(value)->0.value.defining_op;
        if use_list(self.ir.uses, value).len() == 0 && !self.shown_results(op).contains(value)
            && defined is Some {
            seq![defined->0]
        } else {
            Seq::empty()
        }
    }

    /// The operations the text of a counted loop leaves out: what makes its
    /// predicate and what advances its counter.
    pub open spec fn hidden_ops(self, op: OpId) -> Seq<OpId> {
        let results = self.region_results(self.ir.op(op)->0.regions[0]);
        self.elided(op, results[0]) + self.elided(
            op,
            results[self.binding(op).continue_.start as int],
        )
    }
}

fn holds(values: &Vec<ValueId>, value: ValueId) -> (r: bool)
    ensures
        r == values@.contains(value),
{
    let mut i: usize = 0;
    while i < values.len()
        invariant
            i <= values.len(),
            forall|k: int| 0 <= k < i ==> values@[k] != value,
        decreases values.len() - i,
    {
        if values[i] == value {
            return true;
        }
        i += 1;
    }
    false
}

impl ForOp {
    fn push_elided(&self, context: &Context, shown: &Vec<ValueId>, value: ValueId, r: &mut Vec<OpId>)
        requires
            context.inv(),
            context@.ir.value(value) is Some,
            shown@ == context@.shown_results(self.0.id),
        ensures
            final(r)@ == old(r)@ + context@.elided(self.0.id, value),
    {
        if !context.is_used(value) && !holds(shown, value) {
            if let Some(op) = context.get_value(value).defining_op {
                r.push(op);
                assert(r@ =~= old(r)@ + seq![op]);
                return;
            }
        }
        assert(r@ =~= old(r)@ + Seq::<OpId>::empty());
    }

    /// The values the body is printed to yield and the operations its text leaves
    /// out.
    pub fn elisions(&self, context: &Context) -> (r: (Vec<ValueId>, Vec<OpId>))
        requires
            context.inv(),
            context@.prints_counted(self.0.id),
            context@.is_nodes(context@.ir.op(self.0.id)->0.regions[0]),
        ensures
            r.0@ == context@.shown_results(self.0.id),
            r.1@ == context@.hidden_ops(self.0.id),
    {
        let body = self.body(context);
        let binding = self.carried(context);
        let results = context.region_results(body);
        let shown = slice(
            &results,
            &IndexRange::new(binding.continue_.start + 1, binding.continue_.end),
        );
        let mut hidden: Vec<OpId> = Vec::new();
        assert(context@.ir.value(results@[0]) is Some);
        self.push_elided(context, &shown, results[0], &mut hidden);
        assert(context@.ir.value(results@[binding.continue_.start as int]) is Some);
        self.push_elided(context, &shown, results[binding.continue_.start], &mut hidden);
        assert(hidden@ =~= context@.hidden_ops(self.0.id));
        (shown, hidden)
    }

    /// Prints the loop, its body printed as `printed`.
    pub fn custom_print(&self, context: &Context, fmt: &mut IRFormatter, printed: &str)
        requires
            context.inv(),
            context@.prints_counted(self.0.id),
        ensures
            final(fmt)@ == counted_head(
                old(fmt)@,
                context@,
                self.0.id,
                "scf.for"@,
                ids_of(context@.region_ports(context@.ir.op(self.0.id)->0.regions[0])),
                (
                    context@.for_inits(self.0.id)[0],
                    context@.for_operand(self.0.id, 2),
                    context@.for_operand(self.0.id, 3),
                ),
                context@.for_inits(self.0.id).skip(1),
            ).written(printed@),
    {
        let ports = port_ids(context, self.body(context));
        let binding = self.carried(context);
        let inits = slice(context.operands_of(self.0.id), &binding.operands);
        assert(inits@ =~= context@.for_inits(self.0.id));
        print_result_prefix(fmt, context, &self.0);
        let text = counting_text(
            context,
            "scf.for",
            ports[0],
            inits[0],
            self.upper_bound(context),
            self.step(context),
        );
        fmt.write(text.as_str());
        print_port_bindings(fmt, rest(&ports).as_slice(), rest(&inits).as_slice());
        fmt.write(printed);
    }
}

} // verus!

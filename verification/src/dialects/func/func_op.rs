//! Function definitions: λ nodes with a body.
use vstd::prelude::*;
use crate::access::flag_attr;
use crate::access::str_attr;
use crate::access::type_attr;
use crate::access::types_attr;
use crate::access::types_attr_view;
use crate::access::uint_attr;
use crate::attributes::attr_view;
use crate::attributes::AttrView;
use crate::attributes::AttributeValue;
use crate::builder::BuilderView;
use crate::builder::OpBuilder;
use crate::context::Context;
use crate::context::ContextView;
use crate::context::OpHandle;
use crate::dependency::value_name;
use crate::dependency::value_text;
use crate::dialects::builtin::fn_type::fn_text;
use crate::dialects::builtin::fn_type::same_types;
use crate::dialects::builtin::fn_type::variadic;
use crate::dialects::func::alignments_failure;
use crate::dialects::func::alignments_in;
use crate::dialects::func::as_numbers;
use crate::dialects::func::call::verify_result_address;
use crate::dialects::func::declare::fn_type_id;
use crate::dialects::func::declare::visibility_of;
use crate::dialects::func::declare::with_fn_type;
use crate::dialects::func::indices_in;
use crate::dialects::func::keyed_list;
use crate::dialects::func::keyed_list_text;
use crate::dialects::func::listed_positions;
use crate::dialects::func::noalias_failure;
use crate::dialects::func::numbers_attr;
use crate::dialects::func::numbers_attr_view;
use crate::dialects::func::numbers_of;
use crate::dialects::func::positions_of;
use crate::dialects::func::stack_arguments_failure;
use crate::dialects::func::verify_argument_alignments;
use crate::dialects::func::verify_noalias_arguments;
use crate::dialects::func::verify_stack_arguments;
use crate::dialects::print::type_names_text;
use crate::dialects::print::types_of;
use crate::error::either;
use crate::error::invalid;
use crate::error::verdict;
use crate::error::Error;
use crate::ids::OpId;
use crate::ids::RegionId;
use crate::ids::TypeId;
use crate::ids::ValueId;
use crate::interfaces::Callable;
use crate::interfaces::Symbol;
use crate::interfaces::Visibility;
use crate::ir::Value;
use crate::ir_formatter::IRFormatter;
use crate::text::cat2;
use crate::text::cat3;
use crate::text::cat4;
use crate::text::cat6;
use crate::text::cat7;
use crate::text::decimal;
use crate::text::decimal_string;
use crate::ty::type_text;
use crate::ty::FnType;
use crate::ty::Type;
use crate::ty::TypeView;

verus! {

/// A function definition.
#[derive(Debug, Clone, Copy)]
pub struct FuncOp(pub OpHandle);

/// The end of a function.
#[derive(Debug, Clone, Copy)]
pub struct ReturnOp(pub OpHandle);

/// Builds a [`FuncOp`]. It keeps the body it was given, whose arguments say
/// which types the ABI supplies.
pub struct FuncOpBuilder {
    pub op: OpBuilder,
    pub body: Option<RegionId>,
}

/// The ports that carry a value, without the memory states among them.
pub open spec fn data_ports(ports: Seq<Value>) -> Seq<Value>
    decreases ports.len(),
{
    if ports.len() == 0 {
        ports
    } else if ports.last().ty == crate::ids::state_type() {
        data_ports(ports.drop_last())
    } else {
        data_ports(ports.drop_last()).push(ports.last())
    }
}

/// The types of ports.
pub open spec fn port_types_of(ports: Seq<Value>) -> Seq<TypeId> {
    ports.map_values(|p: Value| p.ty)
}

/// Whether a value is one of `ports`.
pub open spec fn among(ports: Seq<Value>, value: ValueId) -> bool {
    exists|i: int| 0 <= i < ports.len() && (#[trigger] ports[i]).id == value
}

/// The ports that carry a value, without the memory states among them.
pub fn value_arguments(ports: &Vec<Value>) -> (r: Vec<Value>)
    ensures
        r@ == data_ports(ports@),
{
    let mut r: Vec<Value> = Vec::new();
    let mut i: usize = 0;
    assert(ports@.take(0) =~= Seq::empty());
    while i < ports.len()
        invariant
            i <= ports.len(),
            r@ == data_ports(ports@.take(i as int)),
        decreases ports.len() - i,
    {
        proof {
            let more = ports@.take(i + 1);
            assert(more.drop_last() =~= ports@.take(i as int));
            assert(more.last() == ports@[i as int]);
        }
        if !ports[i].is_state() {
            r.push(ports[i]);
        }
        i += 1;
    }
    assert(ports@.take(i as int) =~= ports@);
    r
}

fn holds_port(ports: &Vec<Value>, from: usize, value: ValueId) -> (r: bool)
    requires
        from <= ports.len(),
    ensures
        r == among(ports@.skip(from as int), value),
{
    let mut i: usize = from;
    while i < ports.len()
        invariant
            from <= i <= ports.len(),
            forall|k: int| from <= k < i ==> (#[trigger] ports@[k]).id != value,
        decreases ports.len() - i,
    {
        if ports[i].id == value {
            assert(ports@.skip(from as int)[i - from].id == value);
            return true;
        }
        i += 1;
    }
    proof {
        let rest = ports@.skip(from as int);
        assert forall|k: int| 0 <= k < rest.len() implies (#[trigger] rest[k]).id != value by {
            assert(rest[k] == ports@[from + k]);
        }
    }
    false
}

fn types_of_ports(ports: &Vec<Value>, n: usize) -> (r: Vec<TypeId>)
    requires
        n <= ports.len(),
    ensures
        r@ == port_types_of(ports@.take(n as int)),
{
    let mut r: Vec<TypeId> = Vec::new();
    let mut i: usize = 0;
    while i < n
        invariant
            i <= n <= ports.len(),
            r.len() == i,
            forall|k: int| 0 <= k < i ==> (#[trigger] r@[k]) == ports@[k].ty,
        decreases n - i,
    {
        r.push(ports[i].ty);
        i += 1;
    }
    assert(r@ =~= port_types_of(ports@.take(n as int)));
    r
}

impl ContextView {
    /// Whether a definition can be read: it names its function and what that
    /// gives, owns a body, and all it takes is of interned types.
    pub open spec fn func_wf(self, op: OpId) -> bool {
        &&& self.function_wf(op)
        &&& self.type_attr(op, "ret_type"@) is Some
        &&& self.type_attr(op, "ret_type"@).unwrap().0 < self.types.len()
        &&& self.ir.op(op)->0.regions.len() > 0
        &&& self.ir.region(self.func_body(op)) is Some
        &&& self.region_sound(self.func_body(op))
        &&& self.types_known(port_types_of(self.func_params(op)))
        &&& self.values_typed(self.region_results(self.func_body(op)))
    }

    /// The region holding the body.
    pub open spec fn func_body(self, op: OpId) -> RegionId {
        self.ir.op(op)->0.regions[0]
    }

    /// The function's parameters: the body region's arguments.
    pub open spec fn func_params(self, op: OpId) -> Seq<Value> {
        data_ports(self.region_ports(self.func_body(op)))
    }

    /// How many trailing body arguments the ABI supplies.
    pub open spec fn implicit_count(self, op: OpId) -> nat {
        match self.uint_attr(op, "implicit_arguments"@) {
            Some(n) => n,
            None => 0,
        }
    }

    /// How many body arguments the public function type lists.
    pub open spec fn public_count(self, op: OpId) -> nat {
        if self.implicit_count(op) <= self.func_params(op).len() {
            (self.func_params(op).len() - self.implicit_count(op)) as nat
        } else {
            0
        }
    }

    /// The body argument marked as the stack pointer at entry: the value marked,
    /// or the argument at the place marked where that value is gone.
    pub open spec fn entry_sp(self, op: OpId) -> Option<ValueId> {
        let params = self.func_params(op);
        match self.attr(op, "entry_sp"@) {
            Some(AttrView::Value(marked)) => if among(params, marked) {
                Some(marked)
            } else {
                match self.uint_attr(op, "entry_sp_index"@) {
                    Some(index) => if index < params.len() {
                        Some(params[index as int].id)
                    } else {
                        None
                    },
                    None => None,
                }
            },
            _ => None,
        }
    }

    /// Whether a definition takes any further arguments.
    pub open spec fn func_variadic(self, op: OpId) -> bool {
        match self.signature_of(self.ir.op(op)->0.results[0]) {
            Some((params, _ret)) => self.variadic(params),
            None => false,
        }
    }

    /// Why the counts of arguments the ABI supplies are wrong.
    pub open spec fn implicit_failure(self, op: OpId) -> Option<Seq<char>> {
        match self.attr(op, "implicit_arguments"@) {
            Some(AttrView::UInt(count)) => if count > usize::MAX {
                Some("function implicit argument count is too large"@)
            } else if count > self.func_params(op).len() {
                Some("function implicit argument count exceeds its body arguments"@)
            } else {
                None
            },
            Some(_) => Some("function implicit argument count must be an unsigned integer"@),
            None => None,
        }
    }

    /// Why the argument marked as the stack pointer is wrong.
    pub open spec fn entry_sp_failure(self, op: OpId) -> Option<Seq<char>> {
        let marked = self.attr(op, "entry_sp"@);
        match self.entry_sp(op) {
            None => if marked is None {
                None
            } else if marked->0 is Value {
                Some("function entry stack pointer must name an implicit argument"@)
            } else {
                Some("function entry stack pointer must be a value"@)
            },
            Some(value) => if !among(
                self.func_params(op).skip(self.public_count(op) as int),
                value,
            ) {
                Some("function entry stack pointer must name an implicit argument"@)
            } else if self.types[self.type_of(value).0 as int] is Ptr {
                None
            } else {
                Some("function entry stack pointer argument must have pointer type"@)
            },
        }
    }

    /// The parameter types the body says the function has.
    pub open spec fn expected_params(self, op: OpId) -> Seq<TypeId> {
        let public = port_types_of(self.func_params(op).take(self.public_count(op) as int));
        match self.signature_of(self.ir.op(op)->0.results[0]) {
            Some((params, _ret)) => if self.variadic(params) {
                public.push(params.last())
            } else {
                public
            },
            None => public,
        }
    }

    /// Why the type of the function is not what its body says.
    pub open spec fn signature_failure(self, op: OpId) -> Option<Seq<char>> {
        let value = self.ir.op(op)->0.results[0];
        let params = self.expected_params(op);
        let ret = self.type_attr(op, "ret_type"@)->0;
        if self.signature_of(value) == Some((params, ret)) {
            None
        } else {
            Some(
                "function '@"@ + self.str_attr(op, "sym_name"@)->0 + "' produces "@ + type_text(
                    self.types,
                    self.type_of(value),
                ) + ", but its signature is "@ + self.fn_text(params, ret),
            )
        }
    }

    /// A list of types as it is spelled in a message: one alone, any other number
    /// in brackets.
    pub open spec fn spelled(self, types: Seq<TypeId>) -> Seq<char> {
        if types.len() == 1 {
            type_text(self.types, types[0])
        } else {
            "("@ + self.type_names(types, types.len() as int) + ")"@
        }
    }

    /// What the signature says an unordered body names.
    pub open spec fn declared_results(self, op: OpId) -> Seq<TypeId> {
        let ret = self.type_attr(op, "ret_type"@)->0;
        if self.types[ret.0 as int] == TypeView::Unit {
            Seq::empty()
        } else {
            seq![ret]
        }
    }

    /// Why the values an unordered body names are not what the function gives.
    pub open spec fn nodes_results_failure(self, op: OpId) -> Option<Seq<char>> {
        let body = self.func_body(op);
        let produced = self.types_of(self.filtered(self.region_results(body), false));
        let declared = self.declared_results(op);
        if !self.is_nodes(body) || produced == declared {
            None
        } else {
            Some(
                "function '@"@ + self.str_attr(op, "sym_name"@)->0 + "' produces "@ + self.spelled(
                    produced,
                ) + ", but its signature returns "@ + self.spelled(declared),
            )
        }
    }

    /// Why a definition is wrong.
    pub open spec fn func_failure(self, op: OpId) -> Option<Seq<char>> {
        let params = self.func_params(op);
        either(
            alignments_failure(
                self.attr(op, "argument_alignments"@),
                params.len(),
                "function"@,
            ),
            either(
                stack_arguments_failure(
                    self.attr(op, "stack_arguments"@),
                    params.len(),
                    "function"@,
                ),
                either(
                    self.implicit_failure(op),
                    either(
                        noalias_failure(
                            self,
                            self.attr(op, "noalias"@),
                            port_types_of(params.take(self.public_count(op) as int)),
                        ),
                        either(
                            if self.implicit_count(op) > 0 && !self.func_variadic(op) {
                                Some("only variadic functions may have implicit arguments"@)
                            } else {
                                None
                            },
                            either(
                                self.entry_sp_failure(op),
                                either(
                                    self.signature_failure(op),
                                    either(
                                        self.nodes_results_failure(op),
                                        self.result_address_failure(
                                            self.flag_attr(op, "result_address"@),
                                            port_types_of(params),
                                            "function"@,
                                        ),
                                    ),
                                ),
                            ),
                        ),
                    ),
                ),
            ),
        )
    }
}

proof fn params_are_known(context: ContextView, op: OpId, n: int)
    requires
        context.func_wf(op),
        0 <= n <= context.func_params(op).len(),
    ensures
        context.types_known(port_types_of(context.func_params(op).take(n))),
{
    let all = port_types_of(context.func_params(op));
    let some = port_types_of(context.func_params(op).take(n));
    assert forall|i: int| 0 <= i < some.len() implies (#[trigger] some[i]).0
        < context.types.len() by {
        assert(some[i] == all[i]);
    }
}

impl FuncOp {
    /// The region holding the body, whichever kind it is.
    pub fn body_region(&self, context: &Context) -> (r: RegionId)
        requires
            context.inv(),
            context@.ir.op(self.0.id) is Some,
            context@.ir.op(self.0.id)->0.regions.len() > 0,
        ensures
            r == context@.func_body(self.0.id),
    {
        context.regions_of(self.0.id)[0]
    }

    /// The function's parameters: the body region's arguments.
    pub fn parameters(&self, context: &Context) -> (r: Vec<Value>)
        requires
            context.inv(),
            context@.func_wf(self.0.id),
        ensures
            r@ == context@.func_params(self.0.id),
    {
        let body = self.body_region(context);
        value_arguments(&context.region_ports(body))
    }

    /// How many trailing body arguments the ABI supplies.
    pub fn implicit_argument_count(&self, context: &Context) -> (n: u64)
        requires
            context.inv(),
        ensures
            n == context@.implicit_count(self.0.id),
    {
        match uint_attr(context, self.0.id, "implicit_arguments") {
            Some(n) => n,
            None => 0,
        }
    }

    /// The types of the trailing body arguments the ABI supplies, as far as they
    /// are recorded.
    pub fn implicit_argument_types(&self, context: &Context) -> (r: Vec<TypeId>)
        requires
            context.inv(),
        ensures
            r@ == match context@.attr(self.0.id, "implicit_argument_types"@) {
                Some(AttrView::Array(items)) => types_among(items, items.len() as int),
                _ => Seq::empty(),
            },
    {
        let mut r: Vec<TypeId> = Vec::new();
        if let Some(AttributeValue::Array(items)) = context.with_attr(
            self.0.id,
            "implicit_argument_types",
        ) {
            let ghost views = crate::attributes::attr_view(AttributeValue::Array(*items))->Array_0;
            let mut i: usize = 0;
            while i < items.len()
                invariant
                    i <= items.len(),
                    views.len() == items.len(),
                    forall|k: int|
                        0 <= k < items.len() ==> #[trigger] views[k]
                            == crate::attributes::attr_view(items@[k]),
                    r@ == types_among(views, i as int),
                decreases items.len() - i,
            {
                assert(views[i as int] == crate::attributes::attr_view(items@[i as int]));
                if let AttributeValue::Type(ty) = &items[i] {
                    r.push(*ty);
                }
                i += 1;
            }
        }
        r
    }

    fn public_count(&self, context: &Context, params: &Vec<Value>) -> (n: usize)
        requires
            context.inv(),
            params@ == context@.func_params(self.0.id),
        ensures
            n == context@.public_count(self.0.id),
            n <= params.len(),
    {
        let implicit: u64 = self.implicit_argument_count(context);
        if implicit <= params.len() as u64 {
            params.len() - implicit as usize
        } else {
            0
        }
    }

    /// The body arguments represented by the public function type.
    pub fn public_parameters(&self, context: &Context) -> (r: Vec<Value>)
        requires
            context.inv(),
            context@.func_wf(self.0.id),
        ensures
            r@ == context@.func_params(self.0.id).take(context@.public_count(self.0.id) as int),
    {
        let mut params = self.parameters(context);
        let n: usize = self.public_count(context, &params);
        let ghost all = params@;
        params.truncate(n);
        assert(params@ =~= all.take(n as int));
        params
    }

    /// The body argument marked as the stack pointer at entry.
    pub fn entry_sp_argument(&self, context: &Context) -> (r: Option<ValueId>)
        requires
            context.inv(),
            context@.func_wf(self.0.id),
        ensures
            r == context@.entry_sp(self.0.id),
    {
        let marked = match context.with_attr(self.0.id, "entry_sp") {
            Some(AttributeValue::Value(value)) => *value,
            _ => {
                return None;
            },
        };
        let params = self.parameters(context);
        assert(params@.skip(0) =~= params@);
        if holds_port(&params, 0, marked) {
            return Some(marked);
        }
        match uint_attr(context, self.0.id, "entry_sp_index") {
            Some(index) => if index < params.len() as u64 {
                Some(params[index as usize].id)
            } else {
                None
            },
            None => None,
        }
    }

    /// The λ value this definition produces: what a call to it takes as callee.
    pub fn fn_value(&self, context: &Context) -> (v: ValueId)
        requires
            context.inv(),
            context@.ir.op(self.0.id) is Some,
            context@.ir.op(self.0.id)->0.results.len() > 0,
        ensures
            v == context@.ir.op(self.0.id)->0.results[0],
    {
        context.results_of(self.0.id)[0]
    }

    /// What the function gives.
    pub fn ret_type(&self, context: &Context) -> (t: TypeId)
        requires
            context.inv(),
            context@.type_attr(self.0.id, "ret_type"@) is Some,
        ensures
            context@.type_attr(self.0.id, "ret_type"@) == Some(t),
    {
        type_attr(context, self.0.id, "ret_type").unwrap()
    }

    /// Whether the result goes to the address the first argument names.
    pub fn has_result_address(&self, context: &Context) -> (r: bool)
        requires
            context.inv(),
        ensures
            r == context@.flag_attr(self.0.id, "result_address"@),
    {
        flag_attr(context, self.0.id, "result_address")
    }

    /// The alignments of the arguments.
    pub fn argument_alignments(&self, context: &Context) -> (r: Vec<u64>)
        requires
            context.inv(),
        ensures
            numbers_of(r@) == alignments_in(context@.attr(self.0.id, "argument_alignments"@)),
    {
        crate::dialects::func::argument_alignments(context, self.0.id)
    }

    /// The arguments passed on the stack, by index.
    pub fn stack_arguments(&self, context: &Context) -> (r: Vec<usize>)
        requires
            context.inv(),
        ensures
            positions_of(r@) == indices_in(context@.attr(self.0.id, "stack_arguments"@)),
    {
        listed_positions(context, self.0.id, "stack_arguments")
    }

    /// The parameters the caller guarantees name memory nothing else the
    /// function reaches names: a `restrict`-qualified pointer, by index.
    pub fn noalias_arguments(&self, context: &Context) -> (r: Vec<usize>)
        requires
            context.inv(),
        ensures
            positions_of(r@) == indices_in(context@.attr(self.0.id, "noalias"@)),
    {
        listed_positions(context, self.0.id, "noalias")
    }

    fn is_variadic(&self, context: &Context) -> (r: bool)
        requires
            context.inv(),
            context@.func_wf(self.0.id),
        ensures
            r == context@.func_variadic(self.0.id),
    {
        match FnType::signature_of(context, self.fn_value(context)) {
            Some((params, _ret)) => variadic(context, &params),
            None => false,
        }
    }

    fn verify_implicit(&self, context: &Context, params: &Vec<Value>) -> (r: Result<(), Error>)
        requires
            context.inv(),
            params@ == context@.func_params(self.0.id),
        ensures
            verdict(r, context@.implicit_failure(self.0.id)),
    {
        match context.with_attr(self.0.id, "implicit_arguments") {
            Some(AttributeValue::UInt(count)) => {
                if *count > usize::MAX as u64 {
                    return Err(invalid("function implicit argument count is too large"));
                }
                if *count > params.len() as u64 {
                    return Err(
                        invalid("function implicit argument count exceeds its body arguments"),
                    );
                }
                Ok(())
            },
            Some(_) => Err(
                invalid("function implicit argument count must be an unsigned integer"),
            ),
            None => Ok(()),
        }
    }

    fn verify_entry_sp(&self, context: &Context, params: &Vec<Value>) -> (r: Result<(), Error>)
        requires
            context.inv(),
            context@.func_wf(self.0.id),
            params@ == context@.func_params(self.0.id),
            context@.values_typed(crate::binding::ids_of(params@)),
        ensures
            verdict(r, context@.entry_sp_failure(self.0.id)),
    {
        let value = match self.entry_sp_argument(context) {
            Some(value) => value,
            None => {
                return match context.with_attr(self.0.id, "entry_sp") {
                    None => Ok(()),
                    Some(AttributeValue::Value(_)) => Err(
                        invalid("function entry stack pointer must name an implicit argument"),
                    ),
                    Some(_) => Err(invalid("function entry stack pointer must be a value")),
                };
            },
        };
        let public: usize = self.public_count(context, params);
        if !holds_port(params, public, value) {
            return Err(invalid("function entry stack pointer must name an implicit argument"));
        }
        proof {
            let rest = params@.skip(public as int);
            let k = choose|k: int| 0 <= k < rest.len() && (#[trigger] rest[k]).id == value;
            assert(crate::binding::ids_of(params@)[public + k] == value);
        }
        match context.get_type_data(context.get_value(value).ty) {
            Type::Ptr(_) => Ok(()),
            _ => Err(invalid("function entry stack pointer argument must have pointer type")),
        }
    }

    fn verify_signature(&self, context: &Context, params: &Vec<Value>) -> (r: Result<(), Error>)
        requires
            context.inv(),
            context@.func_wf(self.0.id),
            params@ == context@.func_params(self.0.id),
        ensures
            verdict(r, context@.signature_failure(self.0.id)),
    {
        let public: usize = self.public_count(context, params);
        let mut expected = types_of_ports(params, public);
        proof {
            params_are_known(context@, self.0.id, public as int);
        }
        let value = self.fn_value(context);
        let ret = self.ret_type(context);
        let signature = FnType::signature_of(context, value);
        if let Some((found, _)) = &signature {
            if variadic(context, found) {
                expected.push(found[found.len() - 1]);
            }
        }
        assert(expected@ =~= context@.expected_params(self.0.id));
        let agrees = match &signature {
            Some((found, given)) => *given == ret && same_types(found, &expected),
            None => false,
        };
        if agrees {
            return Ok(());
        }
        let message = cat6(
            "function '@",
            self.symbol_name(context).as_str(),
            "' produces ",
            context.type_to_string(context.get_value(value).ty).as_str(),
            ", but its signature is ",
            fn_text(context, &expected, ret).as_str(),
        );
        Err(invalid(message.as_str()))
    }

    /// An unordered body names the values it produces, so what it names is what
    /// the signature says the function returns. An ordered body says the same
    /// thing through its exits.
    fn verify_nodes_results(&self, context: &Context) -> (r: Result<(), Error>)
        requires
            context.inv(),
            context@.func_wf(self.0.id),
        ensures
            verdict(r, context@.nodes_results_failure(self.0.id)),
    {
        let body = self.body_region(context);
        if !context.region_is_nodes(body) {
            return Ok(());
        }
        let results = context.region_results(body);
        let values = data_values(context, &results);
        let produced = types_of(context, &values);
        let ret = self.ret_type(context);
        let mut declared: Vec<TypeId> = Vec::new();
        let unit = match context.get_type_data(ret) {
            Type::Unit(_) => true,
            _ => false,
        };
        if !unit {
            declared.push(ret);
        }
        assert(declared@ =~= context@.declared_results(self.0.id));
        if same_types(&produced, &declared) {
            return Ok(());
        }
        let message = cat6(
            "function '@",
            self.symbol_name(context).as_str(),
            "' produces ",
            spelled_text(context, &produced).as_str(),
            ", but its signature returns ",
            spelled_text(context, &declared).as_str(),
        );
        Err(invalid(message.as_str()))
    }

    /// Checks that a definition's lists name its arguments, that the arguments
    /// the ABI supplies are those of a variadic function, and that its type and
    /// what its body produces are what its signature says.
    pub fn verify_impl(&self, context: &Context) -> (r: Result<(), Error>)
        requires
            context.inv(),
            context@.func_wf(self.0.id),
            context@.values_typed(crate::binding::ids_of(context@.func_params(self.0.id))),
        ensures
            verdict(r, context@.func_failure(self.0.id)),
    {
        let params = self.parameters(context);
        if let Err(e) = verify_argument_alignments(context, self.0.id, params.len(), "function") {
            return Err(e);
        }
        if let Err(e) = verify_stack_arguments(context, self.0.id, params.len(), "function") {
            return Err(e);
        }
        if let Err(e) = self.verify_implicit(context, &params) {
            return Err(e);
        }
        let public: usize = self.public_count(context, &params);
        let public_types = types_of_ports(&params, public);
        proof {
            params_are_known(context@, self.0.id, public as int);
            params_are_known(context@, self.0.id, params@.len() as int);
            assert(params@.take(params@.len() as int) =~= params@);
        }
        if let Err(e) = verify_noalias_arguments(context, self.0.id, &public_types) {
            return Err(e);
        }
        if self.implicit_argument_count(context) > 0 && !self.is_variadic(context) {
            return Err(invalid("only variadic functions may have implicit arguments"));
        }
        if let Err(e) = self.verify_entry_sp(context, &params) {
            return Err(e);
        }
        if let Err(e) = self.verify_signature(context, &params) {
            return Err(e);
        }
        if let Err(e) = self.verify_nodes_results(context) {
            return Err(e);
        }
        let types = types_of_ports(&params, params.len());
        verify_result_address(context, self.has_result_address(context), &types, "function")
    }
}

/// The values of a list that carry no memory state.
fn data_values(context: &Context, ids: &Vec<ValueId>) -> (r: Vec<ValueId>)
    requires
        context.inv(),
        context@.values_typed(ids@),
    ensures
        r@ == context@.filtered(ids@, false),
        context@.values_typed(r@),
{
    let mut r: Vec<ValueId> = Vec::new();
    let mut i: usize = 0;
    assert(ids@.take(0) =~= Seq::empty());
    while i < ids.len()
        invariant
            context.inv(),
            context@.values_typed(ids@),
            i <= ids.len(),
            r@ == context@.filtered(ids@.take(i as int), false),
            context@.values_typed(r@),
        decreases ids.len() - i,
    {
        proof {
            let more = ids@.take(i + 1);
            assert(more.drop_last() =~= ids@.take(i as int));
            assert(more.last() == ids@[i as int]);
            assert(context@.ir.value(ids@[i as int]) is Some);
        }
        if !context.get_value(ids[i]).is_state() {
            r.push(ids[i]);
        }
        i += 1;
    }
    assert(ids@.take(i as int) =~= ids@);
    r
}

fn spelled_text(context: &Context, types: &Vec<TypeId>) -> (s: String)
    requires
        context.inv(),
        context@.types_known(types@),
    ensures
        s@ == context@.spelled(types@),
{
    if types.len() == 1 {
        context.type_to_string(types[0])
    } else {
        cat3("(", type_names_text(context, types).as_str(), ")")
    }
}

impl Callable for FuncOp {
    open spec fn calls(&self, context: ContextView) -> bool {
        context.func_wf(self.0.id)
    }

    open spec fn code(&self, context: ContextView) -> Option<RegionId> {
        Some(context.func_body(self.0.id))
    }

    open spec fn function(&self, context: ContextView) -> ValueId {
        context.ir.op(self.0.id)->0.results[0]
    }

    open spec fn takes(&self, context: ContextView) -> Seq<TypeId> {
        port_types_of(context.func_params(self.0.id).take(context.public_count(self.0.id) as int))
    }

    open spec fn gives(&self, context: ContextView) -> TypeId {
        context.type_attr(self.0.id, "ret_type"@)->0
    }

    fn body(&self, context: &Context) -> (r: Option<RegionId>) {
        Some(self.body_region(context))
    }

    fn value(&self, context: &Context) -> (v: ValueId) {
        self.fn_value(context)
    }

    fn params(&self, context: &Context) -> (r: Vec<TypeId>) {
        let params = self.parameters(context);
        let public: usize = self.public_count(context, &params);
        types_of_ports(&params, public)
    }

    fn result(&self, context: &Context) -> (t: TypeId) {
        self.ret_type(context)
    }
}

impl Symbol for FuncOp {
    open spec fn defines(&self, context: ContextView) -> bool {
        context.func_wf(self.0.id)
    }

    open spec fn name_of(&self, context: ContextView) -> Seq<char> {
        context.str_attr(self.0.id, "sym_name"@)->0
    }

    open spec fn signature(&self, context: ContextView) -> Option<Seq<TypeId>> {
        match context.signature_of(context.ir.op(self.0.id)->0.results[0]) {
            Some((params, _ret)) => Some(params),
            None => None,
        }
    }

    open spec fn result_type(&self, context: ContextView) -> Option<TypeId> {
        context.type_attr(self.0.id, "ret_type"@)
    }

    open spec fn visibility(&self, context: ContextView) -> Visibility {
        context.visibility_of(self.0.id)
    }

    open spec fn defined_here(&self, context: ContextView) -> bool {
        true
    }

    fn symbol_name(&self, context: &Context) -> (s: String) {
        str_attr(context, self.0.id, "sym_name").unwrap()
    }

    fn symbol_signature(&self, context: &Context) -> (r: Option<Vec<TypeId>>) {
        match FnType::signature_of(context, self.fn_value(context)) {
            Some((params, _ret)) => Some(params),
            None => None,
        }
    }

    fn symbol_result_type(&self, context: &Context) -> (r: Option<TypeId>) {
        Some(self.ret_type(context))
    }

    fn symbol_visibility(&self, context: &Context) -> (r: Visibility) {
        visibility_of(context, self.0.id)
    }

    fn is_definition(&self, context: &Context) -> (r: bool) {
        true
    }
}

impl ContextView {
    /// The first `n` of `params` with their types, written `%0: !i32, %1: !i32`.
    pub open spec fn param_list(self, params: Seq<Value>, n: int) -> Seq<char>
        decreases n,
    {
        if n <= 0 {
            Seq::empty()
        } else if n == 1 {
            value_name(params[0].id) + ": "@ + type_text(self.types, params[0].ty)
        } else {
            self.param_list(params, n - 1) + ", "@ + (value_name(params[n - 1].id) + ": "@
                + type_text(self.types, params[n - 1].ty))
        }
    }

    /// What a definition takes, in brackets.
    pub open spec fn func_takes(self, op: OpId) -> Seq<char> {
        let params = self.func_params(op);
        "("@ + self.param_list(params, params.len() as int) + (if self.func_variadic(op) {
            if params.len() > 0 {
                ", ..."@
            } else {
                "..."@
            }
        } else {
            Seq::<char>::empty()
        }) + ")"@
    }

    /// What a definition gives and how it takes its arguments.
    pub open spec fn func_gives(self, op: OpId) -> Seq<char> {
        let ret = self.type_attr(op, "ret_type"@)->0;
        (if self.types[ret.0 as int] == TypeView::Unit {
            Seq::<char>::empty()
        } else {
            " -> "@ + type_text(self.types, ret)
        }) + (if self.flag_attr(op, "result_address"@) {
            " result_address"@
        } else {
            Seq::<char>::empty()
        }) + (if self.implicit_count(op) > 0 {
            " implicit_arguments "@ + decimal(self.implicit_count(op))
        } else {
            Seq::<char>::empty()
        }) + (match self.entry_sp(op) {
            Some(value) => " entry_sp "@ + value_name(value),
            None => Seq::<char>::empty(),
        })
    }

    /// The lists a definition carries about its arguments.
    pub open spec fn func_lists(self, op: OpId) -> Seq<char> {
        keyed_list(
            "argument_alignments"@,
            alignments_in(self.attr(op, "argument_alignments"@)),
        ) + keyed_list("stack_arguments"@, indices_in(self.attr(op, "stack_arguments"@)))
            + keyed_list("noalias"@, indices_in(self.attr(op, "noalias"@)))
    }

    /// A definition as it is written, up to its body.
    pub open spec fn func_header(self, op: OpId) -> Seq<char> {
        value_name(self.ir.op(op)->0.results[0]) + " = func.func"@ + (if self.visibility_of(op)
            == Visibility::Private {
            " private"@
        } else {
            Seq::<char>::empty()
        }) + (" @"@ + self.str_attr(op, "sym_name"@)->0) + self.func_takes(op) + self.func_gives(op)
            + self.func_lists(op)
    }
}

/// `params` with their types, written `%0: !i32, %1: !i32`.
pub fn param_list_text(context: &Context, params: &Vec<Value>) -> (s: String)
    requires
        context.inv(),
        context@.types_known(port_types_of(params@)),
    ensures
        s@ == context@.param_list(params@, params@.len() as int),
{
    let mut s = String::new();
    assert(s@ =~= Seq::empty());
    let mut i: usize = 0;
    while i < params.len()
        invariant
            context.inv(),
            context@.types_known(port_types_of(params@)),
            i <= params.len(),
            s@ == context@.param_list(params@, i as int),
        decreases params.len() - i,
    {
        assert(port_types_of(params@)[i as int] == params@[i as int].ty);
        let ghost before = s@;
        let text = cat3(
            value_text(params[i].id).as_str(),
            ": ",
            context.type_to_string(params[i].ty).as_str(),
        );
        if i > 0 {
            s.append(", ");
            s.append(text.as_str());
            assert(s@ =~= before + ", "@ + text@);
        } else {
            s.append(text.as_str());
            assert(s@ =~= text@);
        }
        i += 1;
    }
    s
}

impl FuncOp {
    fn takes_text(&self, context: &Context) -> (s: String)
        requires
            context.inv(),
            context@.func_wf(self.0.id),
        ensures
            s@ == context@.func_takes(self.0.id),
    {
        let params = self.parameters(context);
        proof {
            reveal_strlit("");
            assert(""@ =~= Seq::<char>::empty());
        }
        let rest = if self.is_variadic(context) {
            if params.len() > 0 {
                ", ..."
            } else {
                "..."
            }
        } else {
            ""
        };
        cat4("(", param_list_text(context, &params).as_str(), rest, ")")
    }

    fn gives_text(&self, context: &Context) -> (s: String)
        requires
            context.inv(),
            context@.func_wf(self.0.id),
        ensures
            s@ == context@.func_gives(self.0.id),
    {
        proof {
            reveal_strlit("");
            assert(""@ =~= Seq::<char>::empty());
        }
        let ret = self.ret_type(context);
        let arrow = match context.get_type_data(ret) {
            Type::Unit(_) => "".to_owned(),
            _ => cat2(" -> ", context.type_to_string(ret).as_str()),
        };
        let address = if self.has_result_address(context) {
            " result_address"
        } else {
            ""
        };
        let implicit: u64 = self.implicit_argument_count(context);
        let implicit = if implicit > 0 {
            cat2(" implicit_arguments ", decimal_string(implicit).as_str())
        } else {
            "".to_owned()
        };
        let entry = match self.entry_sp_argument(context) {
            Some(value) => cat2(" entry_sp ", value_text(value).as_str()),
            None => "".to_owned(),
        };
        cat4(arrow.as_str(), address, implicit.as_str(), entry.as_str())
    }

    fn lists_text(&self, context: &Context) -> (s: String)
        requires
            context.inv(),
        ensures
            s@ == context@.func_lists(self.0.id),
    {
        cat3(
            keyed_list_text("argument_alignments", &self.argument_alignments(context)).as_str(),
            keyed_list_text(
                "stack_arguments",
                &as_numbers(&self.stack_arguments(context)),
            ).as_str(),
            keyed_list_text("noalias", &as_numbers(&self.noalias_arguments(context))).as_str(),
        )
    }

    /// Prints the definition up to its body.
    pub fn print_header(&self, context: &Context, fmt: &mut IRFormatter)
        requires
            context.inv(),
            context@.func_wf(self.0.id),
        ensures
            final(fmt)@ == old(fmt)@.written(context@.func_header(self.0.id)),
    {
        proof {
            reveal_strlit("");
            assert(""@ =~= Seq::<char>::empty());
        }
        let private = match self.symbol_visibility(context) {
            Visibility::Private => " private",
            Visibility::Public => "",
        };
        let text = cat7(
            value_text(self.fn_value(context)).as_str(),
            " = func.func",
            private,
            cat2(" @", self.symbol_name(context).as_str()).as_str(),
            self.takes_text(context).as_str(),
            self.gives_text(context).as_str(),
            self.lists_text(context).as_str(),
        );
        fmt.write(text.as_str());
    }
}

impl ReturnOp {
    /// The value the function returns, or `None` for a void return. The state
    /// operand names the memory handed back to the caller, not a value.
    pub fn returned_value(&self, context: &Context) -> (r: Option<ValueId>)
        requires
            context.inv(),
            context@.readable(self.0.id),
        ensures
            r == if context@.value_operands(self.0.id).len() > 0 {
                Some(context@.value_operands(self.0.id)[0])
            } else {
                None
            },
    {
        let values = self.0.value_operands(context);
        if values.len() > 0 {
            Some(values.at(0))
        } else {
            None
        }
    }
}

/// The attributes a builder carries once it says that `count` trailing arguments
/// of a body with the parameters `params` are supplied by the ABI.
pub open spec fn with_implicit(op: BuilderView, params: Option<Seq<Value>>, count: nat) -> BuilderView {
    let typed = match params {
        Some(list) => if count <= list.len() {
            op.with_attr(
                "implicit_argument_types"@,
                types_attr_view(port_types_of(list.skip(list.len() - count))),
            )
        } else {
            op
        },
        None => op,
    };
    typed.with_attr("implicit_arguments"@, AttrView::UInt(count))
}

/// Where the first of `ports` named `value` stands.
pub open spec fn port_position(ports: Seq<Value>, value: ValueId) -> Option<int>
    decreases ports.len(),
{
    if ports.len() == 0 {
        None
    } else if ports[0].id == value {
        Some(0int)
    } else {
        match port_position(ports.skip(1), value) {
            Some(i) => Some(i + 1),
            None => None,
        }
    }
}

/// The attributes a builder carries once `argument` is marked as the stack
/// pointer at entry.
pub open spec fn with_entry_sp(op: BuilderView, params: Option<Seq<Value>>, argument: ValueId) -> BuilderView {
    let placed = match params {
        Some(list) => match port_position(list, argument) {
            Some(index) => op.with_attr("entry_sp_index"@, AttrView::UInt(index as nat)),
            None => op,
        },
        None => op,
    };
    placed.with_attr("entry_sp"@, AttrView::Value(argument))
}

fn position_of(ports: &Vec<Value>, value: ValueId) -> (r: Option<usize>)
    ensures
        match r {
            Some(i) => port_position(ports@, value) == Some(i as int),
            None => port_position(ports@, value) is None,
        },
{
    let mut i: usize = ports.len();
    let mut found: Option<usize> = None;
    assert(ports@.skip(i as int) =~= Seq::empty());
    while i > 0
        invariant
            i <= ports.len(),
            match found {
                Some(k) => i <= k < ports.len() && port_position(ports@.skip(i as int), value)
                    == Some(k - i),
                None => port_position(ports@.skip(i as int), value) is None,
            },
        decreases i,
    {
        i -= 1;
        assert(ports@.skip(i as int).skip(1) =~= ports@.skip(i + 1));
        if ports[i].id == value {
            found = Some(i);
        }
    }
    assert(ports@.skip(0) =~= ports@);
    found
}

impl FuncOpBuilder {
    /// What the body the builder was given takes.
    pub open spec fn body_params(&self, context: ContextView) -> Option<Seq<Value>> {
        match self.body {
            Some(body) => Some(data_ports(context.region_ports(body))),
            None => None,
        }
    }

    /// Whether the body the builder was given can be read.
    pub open spec fn body_live(&self, context: ContextView) -> bool {
        match self.body {
            Some(body) => context.ir.region(body) is Some && context.region_sound(body),
            None => true,
        }
    }

    /// A definition of nothing yet.
    pub fn new() -> (r: Self)
        ensures
            r.op@ == BuilderView::fresh("func"@, "func"@),
            r.body is None,
    {
        FuncOpBuilder { op: OpBuilder::new("func", "func"), body: None }
    }

    /// With an attribute.
    pub fn attr(self, name: &str, value: AttributeValue) -> (r: Self)
        ensures
            r.op@ == self.op@.with_attr(name@, value@),
            r.body == self.body,
    {
        FuncOpBuilder { op: self.op.attr(name, value), body: self.body }
    }

    /// With the name of the function.
    pub fn sym_name(self, name: &str) -> (r: Self)
        ensures
            r.op@ == self.op@.with_attr("sym_name"@, AttrView::Str(name@)),
            r.body == self.body,
    {
        self.attr("sym_name", AttributeValue::Str(name.to_owned()))
    }

    /// With the type of what the function gives.
    pub fn ret_type(self, ty: TypeId) -> (r: Self)
        ensures
            r.op@ == self.op@.with_attr("ret_type"@, AttrView::Type(ty)),
            r.body == self.body,
    {
        self.attr("ret_type", AttributeValue::Type(ty))
    }

    /// With the type of the function.
    pub fn result_type(self, ty: TypeId) -> (r: Self)
        ensures
            r.op@ == self.op@.with_result(ty),
            r.body == self.body,
    {
        FuncOpBuilder { op: self.op.result_type(ty), body: self.body }
    }

    /// With the body.
    pub fn body(self, region: RegionId) -> (r: Self)
        ensures
            r.op@ == self.op@.with_region(region),
            r.body == Some(region),
    {
        FuncOpBuilder { op: self.op.region(region), body: Some(region) }
    }

    /// Declares `count` trailing body arguments that are supplied by the ABI and
    /// are absent from the public function type.
    pub fn implicit_arguments(self, context: &Context, count: usize) -> (r: Self)
        requires
            context.inv(),
            self.body_live(context@),
        ensures
            r.op@ == with_implicit(self.op@, self.body_params(context@), count as nat),
            r.body == self.body,
    {
        let mut builder = self;
        if let Some(body) = builder.body {
            let params = value_arguments(&context.region_ports(body));
            if count <= params.len() {
                let from: usize = params.len() - count;
                let mut types: Vec<TypeId> = Vec::new();
                let mut i: usize = from;
                while i < params.len()
                    invariant
                        from <= i <= params.len(),
                        types.len() == i - from,
                        forall|k: int|
                            0 <= k < types.len() ==> (#[trigger] types@[k]) == params@[from + k].ty,
                    decreases params.len() - i,
                {
                    types.push(params[i].ty);
                    i += 1;
                }
                assert(types@ =~= port_types_of(params@.skip(from as int)));
                builder = builder.attr("implicit_argument_types", types_attr(&types));
            }
        }
        builder.attr("implicit_arguments", AttributeValue::UInt(count as u64))
    }

    /// Marks an implicit pointer argument that receives the stack pointer at
    /// function entry, before any frame adjustment.
    pub fn entry_sp(self, context: &Context, argument: ValueId) -> (r: Self)
        requires
            context.inv(),
            self.body_live(context@),
        ensures
            r.op@ == with_entry_sp(self.op@, self.body_params(context@), argument),
            r.body == self.body,
    {
        let mut builder = self;
        if let Some(body) = builder.body {
            let params = value_arguments(&context.region_ports(body));
            if let Some(index) = position_of(&params, argument) {
                builder = builder.attr("entry_sp_index", AttributeValue::UInt(index as u64));
            }
        }
        builder.attr("entry_sp", AttributeValue::Value(argument))
    }

    /// With the result going to the address the first argument names.
    pub fn result_address(self) -> (r: Self)
        ensures
            r.op@ == self.op@.with_attr("result_address"@, AttrView::Bool(true)),
            r.body == self.body,
    {
        self.attr("result_address", AttributeValue::Bool(true))
    }

    /// With the arguments nothing else reaches, by index.
    pub fn noalias(self, arguments: &Vec<usize>) -> (r: Self)
        ensures
            r.op@ == self.op@.with_attr("noalias"@, numbers_attr_view(positions_of(arguments@))),
            r.body == self.body,
    {
        self.attr("noalias", numbers_attr(&as_numbers(arguments)))
    }

    /// With the alignments of the arguments.
    pub fn argument_alignments(self, alignments: &Vec<u64>) -> (r: Self)
        ensures
            r.op@ == self.op@.with_attr(
                "argument_alignments"@,
                numbers_attr_view(numbers_of(alignments@)),
            ),
            r.body == self.body,
    {
        self.attr("argument_alignments", numbers_attr(alignments))
    }

    /// With the arguments passed on the stack, by index.
    pub fn stack_arguments(self, arguments: &Vec<usize>) -> (r: Self)
        ensures
            r.op@ == self.op@.with_attr(
                "stack_arguments"@,
                numbers_attr_view(positions_of(arguments@)),
            ),
            r.body == self.body,
    {
        self.attr("stack_arguments", numbers_attr(&as_numbers(arguments)))
    }

    /// Stores the definition.
    pub fn build(self, context: &mut Context) -> (op: FuncOp)
        requires
            old(context).inv(),
            self.op@.fits(old(context)@),
        ensures
            final(context).inv(),
            final(context)@ == self.op@.built(old(context)@),
            op.0.id == OpId(old(context)@.ir.ops.now.len() as u32),
            final(context)@.ir.op(op.0.id) == Some(self.op@.op(old(context)@)),
    {
        FuncOp(self.op.build(context))
    }
}

/// A λ definition named `name`, its `!fn` type read off the arguments of `body`
/// so the signature can never disagree with the parameters.
pub fn lambda(context: &mut Context, name: &str, ret_type: TypeId, body: RegionId) -> (r:
    FuncOpBuilder)
    requires
        old(context).inv(),
        old(context)@.ir.region(body) is Some,
        old(context)@.region_sound(body),
        old(context)@.types.len() < u32::MAX,
        ret_type.0 < old(context)@.types.len(),
        old(context)@.types_known(port_types_of(old(context)@.region_ports(body))),
    ensures
        final(context).inv(),
        final(context)@ == with_fn_type(
            old(context)@,
            port_types_of(old(context)@.region_ports(body)),
            ret_type,
        ),
        r.body == Some(body),
        r.op@ == BuilderView::fresh("func"@, "func"@).with_attr(
            "sym_name"@,
            AttrView::Str(name@),
        ).with_attr("ret_type"@, AttrView::Type(ret_type)).with_result(
            fn_type_id(
                old(context)@,
                port_types_of(old(context)@.region_ports(body)),
                ret_type,
            ),
        ).with_region(body),
{
    let ports = context.region_ports(body);
    let params = types_of_ports(&ports, ports.len());
    assert(ports@.take(ports@.len() as int) =~= ports@);
    let ty = FnType::new(context, &params, ret_type);
    FuncOpBuilder::new().sym_name(name).ret_type(ret_type).result_type(ty).body(body)
}

/// Where an argument stands is where it is found again.
pub proof fn entry_sp_is_found(ports: Seq<Value>, value: ValueId)
    ensures
        port_position(ports, value) is Some <==> among(ports, value),
        port_position(ports, value) is Some ==> {
            let i = port_position(ports, value)->0;
            0 <= i < ports.len() && ports[i].id == value
        },
    decreases ports.len(),
{
    if ports.len() > 0 {
        entry_sp_is_found(ports.skip(1), value);
        if ports[0].id != value {
            if among(ports, value) {
                let k = choose|k: int| 0 <= k < ports.len() && (#[trigger] ports[k]).id == value;
                assert(ports.skip(1)[k - 1].id == value);
            }
            if among(ports.skip(1), value) {
                let k = choose|k: int|
                    0 <= k < ports.skip(1).len() && (#[trigger] ports.skip(1)[k]).id == value;
                assert(ports[k + 1].id == value);
            }
        }
    }
}

/// The types among the first `n` of `items`, in order.
pub open spec fn types_among(items: Seq<AttrView>, n: int) -> Seq<TypeId>
    decreases n,
{
    if n <= 0 {
        Seq::empty()
    } else {
        match items[n - 1] {
            AttrView::Type(ty) => types_among(items, n - 1).push(ty),
            _ => types_among(items, n - 1),
        }
    }
}

} // verus!

//! Tuples: values of fixed types held together.
use vstd::prelude::*;
use crate::access::uint_attr;
use crate::context::Context;
use crate::context::ContextView;
use crate::context::OpHandle;
use crate::dependency::value_list;
use crate::dependency::value_list_text;
use crate::dependency::value_name;
use crate::dependency::value_text;
use crate::dialects::print::type_of_text;
use crate::error::first_failure;
use crate::error::first_failure_stays;
use crate::error::invalid;
use crate::error::verdict;
use crate::error::Error;
use crate::ids::OpId;
use crate::ids::TypeId;
use crate::ids::ValueId;
use crate::ir::copy_list;
use crate::ir_formatter::IRFormatter;
use crate::text::cat2;
use crate::text::cat3;
use crate::text::cat4;
use crate::text::cat5;
use crate::text::cat6;
use crate::text::decimal;
use crate::text::decimal_string;
use crate::ty::interned;
use crate::ty::type_text;
use crate::ty::TupleType;
use crate::ty::Type;
use crate::ty::TypeView;

verus! {

/// A tuple made of its elements.
#[derive(Debug, Clone, Copy)]
pub struct MakeTupleOp(pub OpHandle);

/// One element of a tuple.
#[derive(Debug, Clone, Copy)]
pub struct TupleGetOp(pub OpHandle);

impl TupleType {
    /// The type of a tuple of `elements`.
    pub fn new(context: &mut Context, elements: Vec<TypeId>) -> (id: TypeId)
        requires
            old(context).inv(),
            old(context)@.types.len() < u32::MAX,
            old(context)@.types_known(elements@),
        ensures
            final(context).inv(),
            final(context)@ == (ContextView {
                types: interned(old(context)@.types, TypeView::Tuple(elements@)),
                ..old(context)@
            }),
            id.0 < final(context)@.types.len(),
            final(context)@.types[id.0 as int] == TypeView::Tuple(elements@),
    {
        context.get_type_id(Type::Tuple(TupleType { elements }))
    }

    /// The types of what the tuple holds.
    pub fn elements(&self) -> (r: Vec<TypeId>)
        ensures
            r@ == self.elements@,
    {
        copy_list(&self.elements)
    }
}

impl ContextView {
    /// The element types of a tuple type.
    pub open spec fn tuple_elements(self, ty: TypeId) -> Option<Seq<TypeId>> {
        match self.types[ty.0 as int] {
            TypeView::Tuple(elements) => Some(elements),
            _ => None,
        }
    }

    /// Why an element of a tuple is wrong.
    pub open spec fn element_failure(self, value: ValueId, ty: TypeId, index: int) -> Option<
        Seq<char>,
    > {
        if self.type_of(value) == ty {
            None
        } else {
            Some("make_tuple element "@ + decimal(index as nat) + " has the wrong type"@)
        }
    }

    /// Why making a tuple is wrong.
    pub open spec fn make_tuple_failure(self, op: OpId) -> Option<Seq<char>> {
        let operands = self.ir.op(op)->0.operands;
        match self.tuple_elements(self.type_of(self.ir.op(op)->0.results[0])) {
            None => Some("make_tuple result must have tuple type"@),
            Some(expected) => if expected.len() != operands.len() {
                Some(
                    "make_tuple expected "@ + decimal(expected.len()) + " elements, got "@
                        + decimal(operands.len()),
                )
            } else {
                first_failure(
                    |i: int| self.element_failure(operands[i], expected[i], i),
                    operands.len() as int,
                )
            },
        }
    }

    /// Why taking an element of a tuple is wrong.
    pub open spec fn tuple_get_failure(self, op: OpId) -> Option<Seq<char>> {
        let index = self.uint_attr(op, "index"@)->0;
        match self.tuple_elements(self.type_of(self.ir.op(op)->0.operands[0])) {
            None => Some("tuple_get operand must have tuple type"@),
            Some(elements) => if index >= elements.len() {
                Some(
                    "tuple_get index "@ + decimal(index) + " is out of bounds for "@ + decimal(
                        elements.len(),
                    ) + " elements"@,
                )
            } else if self.type_of(self.ir.op(op)->0.results[0]) != elements[index as int] {
                Some("tuple_get result has the wrong type"@)
            } else {
                None
            },
        }
    }

    /// Making a tuple as it is written.
    pub open spec fn make_tuple_text(self, op: OpId) -> Seq<char> {
        let o = self.ir.op(op)->0;
        value_name(o.results[0]) + " = make_tuple"@ + (if o.operands.len() == 0 {
            Seq::<char>::empty()
        } else {
            " "@ + value_list(o.operands)
        }) + " : "@ + type_text(self.types, self.type_of(o.results[0])) + "\n"@
    }
}

impl MakeTupleOp {
    /// The tuple.
    pub fn result(&self, context: &Context) -> (v: ValueId)
        requires
            context.inv(),
            context@.ir.op(self.0.id) is Some,
            context@.ir.op(self.0.id)->0.results.len() > 0,
        ensures
            v == context@.ir.op(self.0.id)->0.results[0],
    {
        context.results_of(self.0.id)[0]
    }

    /// Prints the op.
    pub fn custom_print(&self, context: &Context, fmt: &mut IRFormatter)
        requires
            context.inv(),
            context@.ir.op(self.0.id) is Some,
            context@.ir.op(self.0.id)->0.results.len() > 0,
            context@.values_typed(context@.ir.op(self.0.id)->0.results),
        ensures
            final(fmt)@ == old(fmt)@.written(context@.make_tuple_text(self.0.id)),
    {
        let result = self.result(context);
        assert(context@.value_sound(context@.ir.op(self.0.id)->0.results[0]));
        let operands = context.operands_of(self.0.id);
        let list = if operands.len() == 0 {
            let none = String::new();
            assert(none@ =~= Seq::<char>::empty());
            none
        } else {
            cat2(" ", value_list_text(operands.as_slice()).as_str())
        };
        let text = cat6(
            value_text(result).as_str(),
            " = make_tuple",
            list.as_str(),
            " : ",
            type_of_text(context, result).as_str(),
            "\n",
        );
        fmt.write(text.as_str());
    }

    /// Checks that the result is a tuple of the types of the elements.
    pub fn verify_impl(&self, context: &Context) -> (r: Result<(), Error>)
        requires
            context.inv(),
            context@.ir.op(self.0.id) is Some,
            context@.ir.op(self.0.id)->0.results.len() > 0,
            context@.values_typed(context@.ir.op(self.0.id)->0.results),
            context@.values_typed(context@.ir.op(self.0.id)->0.operands),
        ensures
            verdict(r, context@.make_tuple_failure(self.0.id)),
    {
        let result = self.result(context);
        assert(context@.value_sound(context@.ir.op(self.0.id)->0.results[0]));
        let ty = context.get_value(result).ty;
        let expected = match context.get_type_data(ty) {
            Type::Tuple(t) => &t.elements,
            _ => {
                return Err(invalid("make_tuple result must have tuple type"));
            },
        };
        let operands = context.operands_of(self.0.id);
        if expected.len() != operands.len() {
            let message = cat4(
                "make_tuple expected ",
                decimal_string(expected.len() as u64).as_str(),
                " elements, got ",
                decimal_string(operands.len() as u64).as_str(),
            );
            return Err(invalid(message.as_str()));
        }
        let ghost view = context@;
        let ghost at = |i: int| view.element_failure(operands@[i], expected@[i], i);
        let mut i: usize = 0;
        while i < operands.len()
            invariant
                context.inv(),
                view == context@,
                i <= operands.len(),
                operands@ == view.ir.op(self.0.id)->0.operands,
                operands.len() == expected.len(),
                view.values_typed(operands@),
                view.tuple_elements(view.type_of(view.ir.op(self.0.id)->0.results[0])) == Some(
                    expected@,
                ),
                at == (|i: int| view.element_failure(operands@[i], expected@[i], i)),
                first_failure(at, i as int) is None,
            decreases operands.len() - i,
        {
            assert(view.ir.value(operands@[i as int]) is Some);
            assert(at(i as int) == view.element_failure(
                operands@[i as int],
                expected@[i as int],
                i as int,
            ));
            if context.get_value(operands[i]).ty != expected[i] {
                proof {
                    first_failure_stays(at, i + 1, operands@.len() as int);
                }
                let message = cat3(
                    "make_tuple element ",
                    decimal_string(i as u64).as_str(),
                    " has the wrong type",
                );
                return Err(invalid(message.as_str()));
            }
            i += 1;
        }
        Ok(())
    }
}

impl TupleGetOp {
    /// The tuple read.
    pub fn tuple(&self, context: &Context) -> (v: ValueId)
        requires
            context.inv(),
            context@.ir.op(self.0.id) is Some,
            context@.ir.op(self.0.id)->0.operands.len() > 0,
        ensures
            v == context@.ir.op(self.0.id)->0.operands[0],
    {
        context.operands_of(self.0.id)[0]
    }

    /// Which element is read.
    pub fn index(&self, context: &Context) -> (n: u64)
        requires
            context.inv(),
            context@.uint_attr(self.0.id, "index"@) is Some,
        ensures
            context@.uint_attr(self.0.id, "index"@) == Some(n as nat),
    {
        uint_attr(context, self.0.id, "index").unwrap()
    }

    /// Checks that the index is one of the tuple's and the result of its type.
    pub fn verify_impl(&self, context: &Context) -> (r: Result<(), Error>)
        requires
            context.inv(),
            context@.ir.op(self.0.id) is Some,
            context@.ir.op(self.0.id)->0.operands.len() > 0,
            context@.ir.op(self.0.id)->0.results.len() > 0,
            context@.values_typed(context@.ir.op(self.0.id)->0.results),
            context@.values_typed(context@.ir.op(self.0.id)->0.operands),
            context@.uint_attr(self.0.id, "index"@) is Some,
        ensures
            verdict(r, context@.tuple_get_failure(self.0.id)),
    {
        assert(context@.value_sound(context@.ir.op(self.0.id)->0.operands[0]));
        assert(context@.value_sound(context@.ir.op(self.0.id)->0.results[0]));
        let ty = context.get_value(self.tuple(context)).ty;
        let elements = match context.get_type_data(ty) {
            Type::Tuple(t) => &t.elements,
            _ => {
                return Err(invalid("tuple_get operand must have tuple type"));
            },
        };
        let index: u64 = self.index(context);
        if index >= elements.len() as u64 {
            let message = cat5(
                "tuple_get index ",
                decimal_string(index).as_str(),
                " is out of bounds for ",
                decimal_string(elements.len() as u64).as_str(),
                " elements",
            );
            return Err(invalid(message.as_str()));
        }
        let result = context.results_of(self.0.id)[0];
        if context.get_value(result).ty != elements[index as usize] {
            return Err(invalid("tuple_get result has the wrong type"));
        }
        Ok(())
    }
}

} // verus!

//! The library routines a memory intrinsic falls back to: where they are
//! declared, and how a module comes by a declaration.
use vstd::prelude::*;
use crate::access::str_attr;
use crate::backend::instructions::fails;
use crate::backend::instructions::PassError;
use crate::backend::instructions::PassErrorView;
use crate::backend::pass::symbol_body_blocks;
use crate::context::edits::first_position_at;
use crate::context::edits::first_position_is_first;
use crate::context::Context;
use crate::context::ContextView;
use crate::dialects::func::declare::declare_op;
use crate::dialects::func::declare::fn_type_id;
use crate::dialects::func::declare::func_declare_view;
use crate::dialects::func::declare::with_fn_type;
use crate::ids::BlockId;
use crate::ids::OpId;
use crate::ids::TypeId;
use crate::ids::ValueId;
use crate::interfaces::Interface;
use crate::ir::copy_list;
use crate::journal::enclosing;
use crate::text::cat3;
use crate::text::same;
use crate::ty::interned;
use crate::ty::FnType;
use crate::ty::IntegerType;
use crate::ty::PtrType;
use crate::ty::Type;
use crate::ty::TypeView;

verus! {

/// The first `builtin.module` from `op` outwards, among the first `limit`
/// operations.
pub open spec fn module_from(context: ContextView, op: Option<OpId>, limit: nat) -> Option<OpId>
    decreases limit,
{
    match op {
        Some(id) => if limit == 0 || context.ir.op(id) is None {
            None
        } else if context.is_op(id, "builtin"@, "module"@) {
            Some(id)
        } else {
            module_from(context, enclosing(context.ir, id), (limit - 1) as nat)
        },
        None => None,
    }
}

impl ContextView {
    /// The innermost module `op` sits in.
    pub open spec fn module_around(self, op: OpId) -> Option<OpId> {
        module_from(self, enclosing(self.ir, op), self.ir.ops.now.len() + 1)
    }

    /// Whether `op` defines the symbol `name` and produces a value.
    pub open spec fn produces_symbol(self, op: OpId, name: Seq<char>) -> bool {
        &&& self.ir.op(op) is Some
        &&& self.has_interface(op, Interface::Symbol)
        &&& self.str_attr(op, "sym_name"@) == Some(name)
        &&& self.ir.op(op)->0.results.len() > 0
    }

    /// What the first of `ops` that defines the symbol `name` produces.
    pub open spec fn symbol_value(self, ops: Seq<OpId>, name: Seq<char>) -> Option<ValueId>
        decreases ops.len(),
    {
        if ops.len() == 0 {
            None
        } else if self.produces_symbol(ops[0], name) {
            Some(self.ir.op(ops[0])->0.results[0])
        } else {
            self.symbol_value(ops.skip(1), name)
        }
    }
}

/// The innermost module an intrinsic sits in: its runtime call is declared there.
pub fn enclosing_module(context: &Context, op: OpId) -> (r: Result<OpId, PassError>)
    requires
        context.inv(),
        context@.sound(),
    ensures
        match context@.module_around(op) {
            Some(module) => r == Ok::<OpId, PassError>(module),
            None => fails(
                r,
                PassErrorView::InvalidRuleSet(
                    "intrinsic runtime call requires an enclosing module"@,
                ),
            ),
        },
{
    let limit: u128 = context.op_count() as u128 + 1;
    let mut current = context.parent_op(op);
    let mut step: u128 = 0;
    while step < limit && current.is_some()
        invariant
            context.inv(),
            context@.sound(),
            step <= limit,
            limit == context@.ir.ops.now.len() + 1,
            context@.module_around(op) == module_from(context@, current, (limit - step) as nat),
        decreases limit - step,
    {
        let id = current.unwrap();
        if !context.has_operation(id) {
            return Err(
                PassError::InvalidRuleSet(
                    "intrinsic runtime call requires an enclosing module".to_owned(),
                ),
            );
        }
        assert(context@.op_sound(id));
        if context.get_op(id).is_name(context, "builtin", "module") {
            return Ok(id);
        }
        current = context.parent_op(id);
        step = step + 1;
    }
    Err(
        PassError::InvalidRuleSet("intrinsic runtime call requires an enclosing module".to_owned()),
    )
}

fn find_symbol_value(context: &Context, ops: &Vec<OpId>, name: &str) -> (r: Option<ValueId>)
    requires
        context.inv(),
        context@.sound(),
    ensures
        r == context@.symbol_value(ops@, name@),
{
    let mut i: usize = 0;
    assert(ops@.skip(0) =~= ops@);
    while i < ops.len()
        invariant
            context.inv(),
            context@.sound(),
            i <= ops.len(),
            context@.symbol_value(ops@, name@) == context@.symbol_value(ops@.skip(i as int), name@),
        decreases ops.len() - i,
    {
        let op = ops[i];
        assert(ops@.skip(i as int)[0] == op);
        assert(ops@.skip(i as int).skip(1) =~= ops@.skip(i + 1));
        if context.has_operation(op) {
            assert(context@.op_sound(op));
            if context.has_interface(op, Interface::Symbol) {
                if let Some(found) = str_attr(context, op, "sym_name") {
                    if same(found.as_str(), name) && context.results_of(op).len() > 0 {
                        return Some(context.results_of(op)[0]);
                    }
                }
            }
        }
        i += 1;
    }
    None
}

/// The context once the function `name` is declared at the top of `body`.
pub open spec fn with_declaration(
    context: ContextView,
    body: BlockId,
    name: Seq<char>,
    ret: TypeId,
    args: Seq<TypeId>,
) -> ContextView {
    let typed = with_fn_type(context, args, ret);
    let declared = func_declare_view(name, fn_type_id(context, args, ret)).built(typed);
    declared.with_op_in_block(
        body,
        declared.ir.block(body)->0.operations.insert(0, context.next_op()),
        context.next_op(),
    )
}

/// What a lookup of the function `name` in `module` leaves, and the value that
/// stands for the function: declared where nothing names it yet.
pub open spec fn lambda_of(
    context: ContextView,
    module: OpId,
    name: Seq<char>,
    ret: TypeId,
    args: Seq<TypeId>,
) -> (ContextView, Result<ValueId, PassErrorView>) {
    let body = context.body_blocks(module)[0];
    match context.symbol_value(context.ir.block(body)->0.operations, name) {
        Some(value) => (
            with_fn_type(context, args, ret),
            if context.type_of(value) == fn_type_id(context, args, ret) {
                Ok(value)
            } else {
                Err(
                    PassErrorView::InvalidRuleSet(
                        "existing "@ + name + " declaration has an incompatible type"@,
                    ),
                )
            },
        ),
        None => (with_declaration(context, body, name, ret, args), Ok(context.next_value())),
    }
}

/// The λ value of `name`, declaring it at the top of the module when nothing in
/// it names that function yet.
pub fn ensure_lambda(
    context: &mut Context,
    module: OpId,
    name: &str,
    return_type: TypeId,
    argument_types: &Vec<TypeId>,
) -> (r: Result<ValueId, PassError>)
    requires
        old(context).inv(),
        old(context)@.sound(),
        old(context)@.ir.op(module) is Some,
        old(context)@.body_blocks(module).len() > 0,
        old(context)@.types.len() + 1 < u32::MAX,
        old(context)@.types_known(argument_types@),
        return_type.0 < old(context)@.types.len(),
        old(context)@.names.len() < u32::MAX,
        old(context)@.ir.ops.now.len() < u32::MAX,
        old(context)@.ir.values.now.len() < u32::MAX,
        ({
            let body = old(context)@.body_blocks(module)[0];
            let found = old(context)@.symbol_value(
                old(context)@.ir.block(body)->0.operations,
                name@,
            );
            found is Some ==> old(context)@.ir.value(found->0) is Some
        }),
    ensures
        final(context).inv(),
        ({
            let found = lambda_of(
                old(context)@,
                module,
                name@,
                return_type,
                argument_types@,
            );
            final(context)@ == found.0 && match found.1 {
                Ok(value) => r == Ok::<ValueId, PassError>(value),
                Err(e) => fails(r, e),
            }
        }),
{
    let ghost before = context@;
    let blocks = symbol_body_blocks(context, module);
    let body = blocks[0];
    assert(context@.ir.block(blocks@[0]) is Some);
    let ops = copy_list(&context.block_ref(body).operations);
    let existing = find_symbol_value(context, &ops, name);
    let expected = FnType::new(context, argument_types, return_type);
    let ghost typed = context@;
    assert(typed == with_fn_type(before, argument_types@, return_type));
    assert(expected == fn_type_id(before, argument_types@, return_type));
    if let Some(value) = existing {
        if context.get_value(value).ty != expected {
            return Err(
                PassError::InvalidRuleSet(
                    cat3("existing ", name, " declaration has an incompatible type"),
                ),
            );
        }
        return Ok(value);
    }
    proof {
        assert(with_fn_type(typed, argument_types@, return_type) == typed) by {
            assert(typed.types[expected.0 as int] == crate::ty::TypeView::Fn(
                argument_types@,
                return_type,
            ));
        }
        assert forall|i: int| 0 <= i < argument_types@.len() implies (#[trigger] argument_types@[i]).0
            < typed.types.len() by {
            assert(argument_types@[i].0 < before.types.len());
        }
        let view = func_declare_view(name@, expected);
        view.building_keeps(typed);
        view.built_is_there(typed);
    }
    let declaration = declare_op(context, name, return_type, argument_types);
    let value = declaration.fn_value(context);
    context.insert_op(body, 0, declaration.0.id);
    Ok(value)
}

impl ContextView {
    /// The context that knows the types a memory routine speaks of.
    pub open spec fn with_routine_types(self) -> ContextView {
        ContextView {
            types: interned(
                interned(interned(self.types, TypeView::Ptr(None)), TypeView::Integer(64)),
                TypeView::Integer(32),
            ),
            ..self
        }
    }

    /// What the memory routine `name` takes: `memset` a pointer, the byte it
    /// fills with and a count, the others two pointers and a count.
    pub open spec fn routine_params(self, name: Seq<char>) -> Seq<TypeId> {
        let pointer = self.known_type(TypeView::Ptr(None));
        let size = self.known_type(TypeView::Integer(64));
        if name == "memset"@ {
            seq![pointer, self.known_type(TypeView::Integer(32)), size]
        } else {
            seq![pointer, pointer, size]
        }
    }
}

/// The types of the memory routine `name`: what it gives, and what it takes.
pub fn routine_types(context: &mut Context, name: &str) -> (r: (TypeId, Vec<TypeId>))
    requires
        old(context).inv(),
        old(context)@.types.len() + 3 < u32::MAX,
    ensures
        final(context).inv(),
        final(context)@ == old(context)@.with_routine_types(),
        r.0 == final(context)@.known_type(TypeView::Ptr(None)),
        r.1@ == final(context)@.routine_params(name@),
        r.0.0 < final(context)@.types.len(),
        final(context)@.types_known(r.1@),
{
    let pointer = PtrType::opaque(context);
    let ghost first = context@.types;
    let size = context.get_type_id(Type::Integer(IntegerType { width: 64 }));
    let ghost second = context@.types;
    let fill = context.get_type_id(Type::Integer(IntegerType { width: 32 }));
    proof {
        let last = context@.types;
        first_position_is_first(first, TypeView::Ptr(None));
        first_position_is_first(second, TypeView::Integer(64));
        assert(forall|j: int| 0 <= j < first.len() ==> last[j] == first[j]);
        assert(forall|j: int| 0 <= j < second.len() ==> last[j] == second[j]);
        first_position_at(last, TypeView::Ptr(None), pointer.0 as int);
        first_position_at(last, TypeView::Integer(64), size.0 as int);
    }
    if same(name, "memset") {
        (pointer, vec![pointer, fill, size])
    } else {
        (pointer, vec![pointer, pointer, size])
    }
}

/// A module found around an operation is live.
pub proof fn module_is_live(context: ContextView, op: Option<OpId>, limit: nat)
    ensures
        module_from(context, op, limit) matches Some(module) ==> context.ir.op(module) is Some,
    decreases limit,
{
    if let Some(id) = op {
        if limit > 0 && context.ir.op(id) is Some {
            module_is_live(context, enclosing(context.ir, id), (limit - 1) as nat);
        }
    }
}

/// Types do not decide which operation defines a symbol.
pub proof fn same_symbol_value(a: ContextView, b: ContextView, ops: Seq<OpId>, name: Seq<char>)
    requires
        b == (ContextView { types: b.types, ..a }),
    ensures
        a.symbol_value(ops, name) == b.symbol_value(ops, name),
    decreases ops.len(),
{
    if ops.len() > 0 {
        assert(a.produces_symbol(ops[0], name) == b.produces_symbol(ops[0], name));
        same_symbol_value(a, b, ops.skip(1), name);
    }
}

} // verus!

//! The dialects every context starts with.
use vstd::prelude::*;
use crate::context::Context;
use crate::context::ContextView;
use crate::interfaces::Interface;

verus! {

/// What operations of an identity promise.
pub type Promise = (Seq<char>, Seq<char>, Interface);

/// What integer sums, differences and products promise.
pub open spec fn sum_promises() -> Seq<Promise> {
    seq![
        ("builtin"@, "addi"@, Interface::Commutative),
        ("builtin"@, "addi"@, Interface::SameOperandAndResultType),
        ("builtin"@, "addi"@, Interface::IntegerArithmetic),
        ("builtin"@, "addi"@, Interface::Speculatable),
        ("builtin"@, "subi"@, Interface::SameOperandAndResultType),
        ("builtin"@, "subi"@, Interface::IntegerArithmetic),
        ("builtin"@, "subi"@, Interface::Speculatable),
        ("builtin"@, "muli"@, Interface::Commutative),
        ("builtin"@, "muli"@, Interface::SameOperandAndResultType),
        ("builtin"@, "muli"@, Interface::IntegerArithmetic),
        ("builtin"@, "muli"@, Interface::Speculatable),
        ("builtin"@, "muli"@, Interface::OpCost),
    ]
}

/// What integer quotients and remainders promise.
pub open spec fn quotient_promises() -> Seq<Promise> {
    seq![
        ("builtin"@, "divsi"@, Interface::SameOperandAndResultType),
        ("builtin"@, "divsi"@, Interface::IntegerArithmetic),
        ("builtin"@, "divui"@, Interface::SameOperandAndResultType),
        ("builtin"@, "divui"@, Interface::IntegerArithmetic),
        ("builtin"@, "remsi"@, Interface::SameOperandAndResultType),
        ("builtin"@, "remsi"@, Interface::IntegerArithmetic),
        ("builtin"@, "remui"@, Interface::SameOperandAndResultType),
        ("builtin"@, "remui"@, Interface::IntegerArithmetic),
    ]
}

/// What bitwise operations promise.
pub open spec fn bitwise_promises() -> Seq<Promise> {
    seq![
        ("builtin"@, "andi"@, Interface::Commutative),
        ("builtin"@, "andi"@, Interface::SameOperandAndResultType),
        ("builtin"@, "andi"@, Interface::IntegerArithmetic),
        ("builtin"@, "andi"@, Interface::Speculatable),
        ("builtin"@, "ori"@, Interface::Commutative),
        ("builtin"@, "ori"@, Interface::SameOperandAndResultType),
        ("builtin"@, "ori"@, Interface::IntegerArithmetic),
        ("builtin"@, "ori"@, Interface::Speculatable),
        ("builtin"@, "xori"@, Interface::Commutative),
        ("builtin"@, "xori"@, Interface::SameOperandAndResultType),
        ("builtin"@, "xori"@, Interface::IntegerArithmetic),
        ("builtin"@, "xori"@, Interface::Speculatable),
    ]
}

/// What shifts promise.
pub open spec fn shift_promises() -> Seq<Promise> {
    seq![
        ("builtin"@, "shli"@, Interface::SameOperandAndResultType),
        ("builtin"@, "shli"@, Interface::IntegerArithmetic),
        ("builtin"@, "shli"@, Interface::Speculatable),
        ("builtin"@, "shrui"@, Interface::SameOperandAndResultType),
        ("builtin"@, "shrui"@, Interface::IntegerArithmetic),
        ("builtin"@, "shrui"@, Interface::Speculatable),
        ("builtin"@, "shrsi"@, Interface::SameOperandAndResultType),
        ("builtin"@, "shrsi"@, Interface::IntegerArithmetic),
        ("builtin"@, "shrsi"@, Interface::Speculatable),
    ]
}

/// What integer constants, comparisons and conversions promise.
pub open spec fn constant_promises() -> Seq<Promise> {
    seq![
        ("builtin"@, "constant"@, Interface::ConstantLike),
        ("builtin"@, "constant"@, Interface::Interp),
        ("builtin"@, "constant"@, Interface::Speculatable),
        ("builtin"@, "cmpi"@, Interface::Speculatable),
        ("builtin"@, "extsi"@, Interface::Speculatable),
        ("builtin"@, "extui"@, Interface::Speculatable),
        ("builtin"@, "trunci"@, Interface::Speculatable),
        ("builtin"@, "bitcast"@, Interface::Speculatable),
    ]
}

/// What floating-point arithmetic promise.
pub open spec fn float_promises() -> Seq<Promise> {
    seq![
        ("builtin"@, "addf"@, Interface::Commutative),
        ("builtin"@, "addf"@, Interface::SameOperandAndResultType),
        ("builtin"@, "subf"@, Interface::SameOperandAndResultType),
        ("builtin"@, "mulf"@, Interface::Commutative),
        ("builtin"@, "mulf"@, Interface::SameOperandAndResultType),
        ("builtin"@, "divf"@, Interface::SameOperandAndResultType),
    ]
}

/// What branches, symbols and tuples promise.
pub open spec fn module_promises() -> Seq<Promise> {
    seq![
        ("builtin"@, "br"@, Interface::Terminator),
        ("builtin"@, "cond_br"@, Interface::Terminator),
        ("builtin"@, "return"@, Interface::Terminator),
        ("builtin"@, "module_end"@, Interface::Terminator),
        ("builtin"@, "global"@, Interface::Symbol),
        ("builtin"@, "sym_addr"@, Interface::Pure),
        ("builtin"@, "fn_to_ptr"@, Interface::Pure),
        ("builtin"@, "ptr_to_fn"@, Interface::Pure),
        ("builtin"@, "make_tuple"@, Interface::Interp),
        ("builtin"@, "tuple_get"@, Interface::Interp),
    ]
}

/// What the `cfg` dialect promises.
pub open spec fn cfg_promises() -> Seq<Promise> {
    seq![
        ("cfg"@, "br"@, Interface::Terminator),
        ("cfg"@, "br"@, Interface::BranchTerminator),
        ("cfg"@, "cond_br"@, Interface::Terminator),
        ("cfg"@, "cond_br"@, Interface::BranchTerminator),
        ("cfg"@, "cond_br"@, Interface::BranchGuard),
    ]
}

/// What the `func` dialect promises.
pub open spec fn func_promises() -> Seq<Promise> {
    seq![
        ("func"@, "func"@, Interface::Symbol),
        ("func"@, "func"@, Interface::Callable),
        ("func"@, "return"@, Interface::Terminator),
        ("func"@, "declare"@, Interface::Symbol),
    ]
}

/// What the `ptr` dialect promises.
pub open spec fn ptr_promises() -> Seq<Promise> {
    seq![
        ("ptr"@, "alloca"@, Interface::PromotableAllocation),
        ("ptr"@, "alloca"@, Interface::Interp),
        ("ptr"@, "load"@, Interface::MemoryRead),
        ("ptr"@, "load"@, Interface::Interp),
        ("ptr"@, "store"@, Interface::MemoryWrite),
        ("ptr"@, "store"@, Interface::Interp),
        ("ptr"@, "memcpy"@, Interface::Interp),
        ("ptr"@, "memset"@, Interface::MemoryWrite),
        ("ptr"@, "memset"@, Interface::Interp),
    ]
}

/// What the `scf` dialect promises.
pub open spec fn scf_promises() -> Seq<Promise> {
    seq![
        ("scf"@, "loop"@, Interface::ExitScope),
        ("scf"@, "loop"@, Interface::Theta),
        ("scf"@, "switch"@, Interface::ExitScope),
        ("scf"@, "switch"@, Interface::Gamma),
        ("scf"@, "for"@, Interface::ExitScope),
        ("scf"@, "for"@, Interface::Theta),
        ("scf"@, "for"@, Interface::CountedLoop),
        ("scf"@, "ordered_for"@, Interface::ExitScope),
        ("scf"@, "ordered_for"@, Interface::CountedLoop),
        ("scf"@, "yield"@, Interface::Terminator),
    ]
}

/// What the `state` dialect promises.
pub open spec fn state_promises() -> Seq<Promise> {
    seq![
        ("state"@, "entry_state"@, Interface::MemoryState),
        ("state"@, "entry_state"@, Interface::Interp),
        ("state"@, "join"@, Interface::MemoryState),
        ("state"@, "join"@, Interface::Interp),
        ("state"@, "split"@, Interface::MemoryState),
        ("state"@, "split"@, Interface::Interp),
    ]
}

/// What the operations of the `builtin` dialect promise.
pub open spec fn builtin_promises() -> Seq<Promise> {
    sum_promises() + quotient_promises() + bitwise_promises() + shift_promises()
        + constant_promises() + float_promises() + module_promises()
}

/// What the operations of the default dialects promise.
pub open spec fn default_promises() -> Seq<Promise> {
    builtin_promises() + cfg_promises() + func_promises() + ptr_promises() + scf_promises()
        + state_promises()
}

impl ContextView {
    /// With more promises known.
    pub open spec fn promising(self, promises: Seq<Promise>) -> Self {
        ContextView { interfaces: self.interfaces + promises, ..self }
    }
}

fn register_sum(context: &mut Context)
    requires
        old(context).inv(),
    ensures
        final(context).inv(),
        final(context)@ == old(context)@.promising(sum_promises()),
{
    context.register_op_interface("builtin", "addi", Interface::Commutative);
    context.register_op_interface("builtin", "addi", Interface::SameOperandAndResultType);
    context.register_op_interface("builtin", "addi", Interface::IntegerArithmetic);
    context.register_op_interface("builtin", "addi", Interface::Speculatable);
    context.register_op_interface("builtin", "subi", Interface::SameOperandAndResultType);
    context.register_op_interface("builtin", "subi", Interface::IntegerArithmetic);
    context.register_op_interface("builtin", "subi", Interface::Speculatable);
    context.register_op_interface("builtin", "muli", Interface::Commutative);
    context.register_op_interface("builtin", "muli", Interface::SameOperandAndResultType);
    context.register_op_interface("builtin", "muli", Interface::IntegerArithmetic);
    context.register_op_interface("builtin", "muli", Interface::Speculatable);
    context.register_op_interface("builtin", "muli", Interface::OpCost);
    assert(context@.interfaces =~= old(context)@.interfaces + sum_promises());
}

fn register_quotient(context: &mut Context)
    requires
        old(context).inv(),
    ensures
        final(context).inv(),
        final(context)@ == old(context)@.promising(quotient_promises()),
{
    context.register_op_interface("builtin", "divsi", Interface::SameOperandAndResultType);
    context.register_op_interface("builtin", "divsi", Interface::IntegerArithmetic);
    context.register_op_interface("builtin", "divui", Interface::SameOperandAndResultType);
    context.register_op_interface("builtin", "divui", Interface::IntegerArithmetic);
    context.register_op_interface("builtin", "remsi", Interface::SameOperandAndResultType);
    context.register_op_interface("builtin", "remsi", Interface::IntegerArithmetic);
    context.register_op_interface("builtin", "remui", Interface::SameOperandAndResultType);
    context.register_op_interface("builtin", "remui", Interface::IntegerArithmetic);
    assert(context@.interfaces =~= old(context)@.interfaces + quotient_promises());
}

fn register_bitwise(context: &mut Context)
    requires
        old(context).inv(),
    ensures
        final(context).inv(),
        final(context)@ == old(context)@.promising(bitwise_promises()),
{
    context.register_op_interface("builtin", "andi", Interface::Commutative);
    context.register_op_interface("builtin", "andi", Interface::SameOperandAndResultType);
    context.register_op_interface("builtin", "andi", Interface::IntegerArithmetic);
    context.register_op_interface("builtin", "andi", Interface::Speculatable);
    context.register_op_interface("builtin", "ori", Interface::Commutative);
    context.register_op_interface("builtin", "ori", Interface::SameOperandAndResultType);
    context.register_op_interface("builtin", "ori", Interface::IntegerArithmetic);
    context.register_op_interface("builtin", "ori", Interface::Speculatable);
    context.register_op_interface("builtin", "xori", Interface::Commutative);
    context.register_op_interface("builtin", "xori", Interface::SameOperandAndResultType);
    context.register_op_interface("builtin", "xori", Interface::IntegerArithmetic);
    context.register_op_interface("builtin", "xori", Interface::Speculatable);
    assert(context@.interfaces =~= old(context)@.interfaces + bitwise_promises());
}

fn register_shift(context: &mut Context)
    requires
        old(context).inv(),
    ensures
        final(context).inv(),
        final(context)@ == old(context)@.promising(shift_promises()),
{
    context.register_op_interface("builtin", "shli", Interface::SameOperandAndResultType);
    context.register_op_interface("builtin", "shli", Interface::IntegerArithmetic);
    context.register_op_interface("builtin", "shli", Interface::Speculatable);
    context.register_op_interface("builtin", "shrui", Interface::SameOperandAndResultType);
    context.register_op_interface("builtin", "shrui", Interface::IntegerArithmetic);
    context.register_op_interface("builtin", "shrui", Interface::Speculatable);
    context.register_op_interface("builtin", "shrsi", Interface::SameOperandAndResultType);
    context.register_op_interface("builtin", "shrsi", Interface::IntegerArithmetic);
    context.register_op_interface("builtin", "shrsi", Interface::Speculatable);
    assert(context@.interfaces =~= old(context)@.interfaces + shift_promises());
}

fn register_constant(context: &mut Context)
    requires
        old(context).inv(),
    ensures
        final(context).inv(),
        final(context)@ == old(context)@.promising(constant_promises()),
{
    context.register_op_interface("builtin", "constant", Interface::ConstantLike);
    context.register_op_interface("builtin", "constant", Interface::Interp);
    context.register_op_interface("builtin", "constant", Interface::Speculatable);
    context.register_op_interface("builtin", "cmpi", Interface::Speculatable);
    context.register_op_interface("builtin", "extsi", Interface::Speculatable);
    context.register_op_interface("builtin", "extui", Interface::Speculatable);
    context.register_op_interface("builtin", "trunci", Interface::Speculatable);
    context.register_op_interface("builtin", "bitcast", Interface::Speculatable);
    assert(context@.interfaces =~= old(context)@.interfaces + constant_promises());
}

fn register_float(context: &mut Context)
    requires
        old(context).inv(),
    ensures
        final(context).inv(),
        final(context)@ == old(context)@.promising(float_promises()),
{
    context.register_op_interface("builtin", "addf", Interface::Commutative);
    context.register_op_interface("builtin", "addf", Interface::SameOperandAndResultType);
    context.register_op_interface("builtin", "subf", Interface::SameOperandAndResultType);
    context.register_op_interface("builtin", "mulf", Interface::Commutative);
    context.register_op_interface("builtin", "mulf", Interface::SameOperandAndResultType);
    context.register_op_interface("builtin", "divf", Interface::SameOperandAndResultType);
    assert(context@.interfaces =~= old(context)@.interfaces + float_promises());
}

fn register_module(context: &mut Context)
    requires
        old(context).inv(),
    ensures
        final(context).inv(),
        final(context)@ == old(context)@.promising(module_promises()),
{
    context.register_op_interface("builtin", "br", Interface::Terminator);
    context.register_op_interface("builtin", "cond_br", Interface::Terminator);
    context.register_op_interface("builtin", "return", Interface::Terminator);
    context.register_op_interface("builtin", "module_end", Interface::Terminator);
    context.register_op_interface("builtin", "global", Interface::Symbol);
    context.register_op_interface("builtin", "sym_addr", Interface::Pure);
    context.register_op_interface("builtin", "fn_to_ptr", Interface::Pure);
    context.register_op_interface("builtin", "ptr_to_fn", Interface::Pure);
    context.register_op_interface("builtin", "make_tuple", Interface::Interp);
    context.register_op_interface("builtin", "tuple_get", Interface::Interp);
    assert(context@.interfaces =~= old(context)@.interfaces + module_promises());
}

fn register_cfg(context: &mut Context)
    requires
        old(context).inv(),
    ensures
        final(context).inv(),
        final(context)@ == old(context)@.promising(cfg_promises()),
{
    context.register_op_interface("cfg", "br", Interface::Terminator);
    context.register_op_interface("cfg", "br", Interface::BranchTerminator);
    context.register_op_interface("cfg", "cond_br", Interface::Terminator);
    context.register_op_interface("cfg", "cond_br", Interface::BranchTerminator);
    context.register_op_interface("cfg", "cond_br", Interface::BranchGuard);
    assert(context@.interfaces =~= old(context)@.interfaces + cfg_promises());
}

fn register_func(context: &mut Context)
    requires
        old(context).inv(),
    ensures
        final(context).inv(),
        final(context)@ == old(context)@.promising(func_promises()),
{
    context.register_op_interface("func", "func", Interface::Symbol);
    context.register_op_interface("func", "func", Interface::Callable);
    context.register_op_interface("func", "return", Interface::Terminator);
    context.register_op_interface("func", "declare", Interface::Symbol);
    assert(context@.interfaces =~= old(context)@.interfaces + func_promises());
}

fn register_ptr(context: &mut Context)
    requires
        old(context).inv(),
    ensures
        final(context).inv(),
        final(context)@ == old(context)@.promising(ptr_promises()),
{
    context.register_op_interface("ptr", "alloca", Interface::PromotableAllocation);
    context.register_op_interface("ptr", "alloca", Interface::Interp);
    context.register_op_interface("ptr", "load", Interface::MemoryRead);
    context.register_op_interface("ptr", "load", Interface::Interp);
    context.register_op_interface("ptr", "store", Interface::MemoryWrite);
    context.register_op_interface("ptr", "store", Interface::Interp);
    context.register_op_interface("ptr", "memcpy", Interface::Interp);
    context.register_op_interface("ptr", "memset", Interface::MemoryWrite);
    context.register_op_interface("ptr", "memset", Interface::Interp);
    assert(context@.interfaces =~= old(context)@.interfaces + ptr_promises());
}

fn register_scf(context: &mut Context)
    requires
        old(context).inv(),
    ensures
        final(context).inv(),
        final(context)@ == old(context)@.promising(scf_promises()),
{
    context.register_op_interface("scf", "loop", Interface::ExitScope);
    context.register_op_interface("scf", "loop", Interface::Theta);
    context.register_op_interface("scf", "switch", Interface::ExitScope);
    context.register_op_interface("scf", "switch", Interface::Gamma);
    context.register_op_interface("scf", "for", Interface::ExitScope);
    context.register_op_interface("scf", "for", Interface::Theta);
    context.register_op_interface("scf", "for", Interface::CountedLoop);
    context.register_op_interface("scf", "ordered_for", Interface::ExitScope);
    context.register_op_interface("scf", "ordered_for", Interface::CountedLoop);
    context.register_op_interface("scf", "yield", Interface::Terminator);
    assert(context@.interfaces =~= old(context)@.interfaces + scf_promises());
}

fn register_state(context: &mut Context)
    requires
        old(context).inv(),
    ensures
        final(context).inv(),
        final(context)@ == old(context)@.promising(state_promises()),
{
    context.register_op_interface("state", "entry_state", Interface::MemoryState);
    context.register_op_interface("state", "entry_state", Interface::Interp);
    context.register_op_interface("state", "join", Interface::MemoryState);
    context.register_op_interface("state", "join", Interface::Interp);
    context.register_op_interface("state", "split", Interface::MemoryState);
    context.register_op_interface("state", "split", Interface::Interp);
    assert(context@.interfaces =~= old(context)@.interfaces + state_promises());
}

impl Context {
    /// A context that knows what the operations of the default dialects promise.
    pub fn with_default_dialects() -> (r: Self)
        ensures
            r.inv(),
            r@.interfaces == default_promises(),
            r@.ir.ops.now.len() == 0,
            r@.ir.values.now.len() == 0,
            r@.ir.blocks.now.len() == 0,
            r@.ir.regions.now.len() == 0,
            r@.epoch == 0,
            r@.types == seq![crate::ty::TypeView::State],
            r@.names.len() == 0,
    {
        let mut r = Context::new();
        register_sum(&mut r);
        register_quotient(&mut r);
        register_bitwise(&mut r);
        register_shift(&mut r);
        register_constant(&mut r);
        register_float(&mut r);
        register_module(&mut r);
        register_cfg(&mut r);
        register_func(&mut r);
        register_ptr(&mut r);
        register_scf(&mut r);
        register_state(&mut r);
        assert(r@.interfaces =~= default_promises());
        r
    }
}

} // verus!

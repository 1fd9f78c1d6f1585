//! Memory intrinsics as ordinary operations: inline accesses where the size is
//! known and small, a call of the library routine where it is not.
use vstd::prelude::*;
use crate::attributes::AttrView;
use crate::attributes::AttributeValue;
use crate::backend::allocas::erase_op;
use crate::backend::allocas::erased_from;
use crate::backend::instructions::fails;
use crate::backend::instructions::PassError;
use crate::backend::instructions::PassErrorView;
use crate::binding::constant_of;
use crate::builder::BuilderView;
use crate::builder::OpBuilder;
use crate::context::kept::interning_keeps_sound;
use crate::context::owned::op_owned;
use crate::context::owned::op_within;
use crate::context::regions::value_replaced;
use crate::context::Context;
use crate::context::ContextView;
use crate::dialects::func::call::CallOpBuilder;
use crate::dialects::func::declare::fn_type_id;
use crate::dialects::func::declare::func_declare_view;
use crate::dialects::func::declare::with_fn_type;
use crate::dialects::ptr::emit::address;
use crate::dialects::ptr::emit::constant_view;
use crate::dialects::ptr::emit::emit;
use crate::dialects::ptr::emit::extui_view;
use crate::dialects::ptr::emit::integer_type;
use crate::dialects::ptr::emit::load_view;
use crate::dialects::ptr::emit::muli_view;
use crate::dialects::ptr::emit::placing_keeps_positions;
use crate::dialects::ptr::emit::store;
use crate::dialects::ptr::emit::threaded;
use crate::dialects::ptr::emit::Emission;
use crate::dialects::ptr::intrinsics::chunks_from;
use crate::dialects::ptr::intrinsics::fill_pattern;
use crate::dialects::ptr::intrinsics::inline_chunks;
use crate::dialects::ptr::intrinsics::inline_plan;
use crate::dialects::ptr::intrinsics::repeated;
use crate::dialects::ptr::intrinsics::target_failure;
use crate::dialects::ptr::intrinsics::widths_of;
use crate::dialects::ptr::intrinsics::Chunk;
use crate::dialects::ptr::intrinsics::Widths;
use crate::dialects::ptr::library::enclosing_module;
use crate::dialects::ptr::library::ensure_lambda;
use crate::dialects::ptr::library::lambda_of;
use crate::dialects::ptr::library::module_is_live;
use crate::dialects::ptr::library::routine_types;
use crate::dialects::ptr::library::same_symbol_value;
use crate::dialects::ptr::observed_state;
use crate::dialects::ptr::produced_state;
use crate::dialects::ptr::MemcpyOp;
use crate::dialects::ptr::MemsetOp;
use crate::ids::BlockId;
use crate::ids::OpId;
use crate::ids::TypeId;
use crate::ids::ValueId;
use crate::interp::low_bits;
use crate::interp::IntValue;
use crate::ir::Parent;
use crate::journal::enclosing;
use crate::text::same;
use crate::ty::TypeView;

verus! {

/// The bytes an access of an intrinsic goes to and comes from.
pub ghost struct Site {
    pub block: BlockId,
    pub op: OpId,
    pub destination: ValueId,
    pub destination_ty: TypeId,
    pub source: ValueId,
    pub source_ty: TypeId,
}

impl Emission {
    /// After one chunk was copied: read at the source, written at the destination.
    pub open spec fn copied_chunk(self, site: Site, chunk: Chunk) -> Emission {
        let ty = TypeView::Integer((chunk.bytes * 8) as u32);
        let typed = self.context.with_type(ty);
        let (from, source) = typed.address(
            site.block,
            site.op,
            site.source,
            site.source_ty,
            chunk.offset,
        );
        let (to, destination) = from.address(
            site.block,
            site.op,
            site.destination,
            site.destination_ty,
            chunk.offset,
        );
        let loaded = to.emitted(
            site.block,
            site.op,
            load_view(source, typed.known_type(ty), self.state),
        );
        let state = match self.state {
            Some(_) => Some(ValueId((to.ir.values.now.len() + 1) as u32)),
            None => None,
        };
        (Emission { context: loaded, state }).stored(
            site.block,
            site.op,
            destination,
            to.next_value(),
        )
    }

    /// After the first `n` of `chunks` were copied.
    pub open spec fn copied(self, site: Site, chunks: Seq<Chunk>, n: int) -> Emission
        decreases n,
    {
        if n <= 0 {
            self
        } else {
            self.copied(site, chunks, n - 1).copied_chunk(site, chunks[n - 1])
        }
    }

    /// After one chunk was filled with the byte at the source: wider than a byte, it
    /// is the byte repeated.
    pub open spec fn filled_chunk(self, site: Site, chunk: Chunk) -> Emission {
        let (to, destination) = self.context.address(
            site.block,
            site.op,
            site.destination,
            site.destination_ty,
            chunk.offset,
        );
        if chunk.bytes > 1 {
            let data = TypeView::Integer((chunk.bytes * 8) as u32);
            let typed = to.with_type(data);
            let ty = typed.known_type(data);
            let extended = typed.emitted(site.block, site.op, extui_view(site.source, ty));
            let repeating = extended.emitted(
                site.block,
                site.op,
                constant_view(repeated(1, chunk.bytes as nat) as u64 as i64, ty),
            );
            let product = repeating.emitted(
                site.block,
                site.op,
                muli_view(typed.next_value(), extended.next_value(), ty),
            );
            (Emission { context: product, state: self.state }).stored(
                site.block,
                site.op,
                destination,
                repeating.next_value(),
            )
        } else {
            (Emission { context: to, state: self.state }).stored(
                site.block,
                site.op,
                destination,
                site.source,
            )
        }
    }

    /// After the first `n` of `chunks` were filled.
    pub open spec fn filled(self, site: Site, chunks: Seq<Chunk>, n: int) -> Emission
        decreases n,
    {
        if n <= 0 {
            self
        } else {
            self.filled(site, chunks, n - 1).filled_chunk(site, chunks[n - 1])
        }
    }
}

/// The call an intrinsic becomes, on the chain the intrinsic was on.
pub open spec fn call_view(
    callee: ValueId,
    args: Seq<ValueId>,
    ty: TypeId,
    state: Option<ValueId>,
) -> BuilderView {
    BuilderView::fresh("func"@, "call"@).with_group(seq![callee]).with_group(
        args,
    ).with_segments().with_result(ty).threaded(state)
}

impl ContextView {
    /// After the routine `name` was called just before `op`: `memset` takes the byte
    /// it fills with in an integer of its own type.
    pub open spec fn routine_called(
        self,
        block: BlockId,
        op: OpId,
        name: Seq<char>,
        callee: ValueId,
        args: Seq<ValueId>,
        types: (TypeId, Seq<TypeId>),
        state: Option<ValueId>,
    ) -> Emission {
        let (ready, handed) = if name == "memset"@ {
            (
                self.emitted(block, op, extui_view(args[1], types.1[1])),
                args.update(1, self.next_value()),
            )
        } else {
            (self, args)
        };
        Emission {
            context: ready.emitted(block, op, call_view(callee, handed, types.0, state)),
            state: match state {
                Some(_) => Some(ValueId((ready.ir.values.now.len() + 1) as u32)),
                None => None,
            },
        }
    }

    /// How many bytes a value is known to be.
    pub open spec fn known_bytes(self, size: ValueId) -> Option<u64> {
        match self.constant(size) {
            Some((n, width)) => Some(low_bits(width, n as u64)),
            None => None,
        }
    }

    /// Whether an intrinsic can be expanded: a block holds it, it has its three
    /// operands, and what it names is live.
    pub open spec fn expandable(self, op: OpId) -> bool {
        &&& self.ir.op(op) is Some
        &&& self.ir.op(op)->0.parent matches Some(Parent::Block(block))
            && self.position_in(block, op) is Some
        &&& self.ir.op(op)->0.operands.len() >= 3
        &&& self.values_typed(self.ir.op(op)->0.operands)
    }

    /// The block that holds `op`.
    pub open spec fn block_of(self, op: OpId) -> BlockId {
        match self.ir.op(op)->0.parent {
            Some(Parent::Block(block)) => block,
            _ => BlockId(0),
        }
    }

    /// Where the accesses of an intrinsic go.
    pub open spec fn site(self, op: OpId) -> Site {
        let operands = self.ir.op(op)->0.operands;
        Site {
            block: self.block_of(op),
            op,
            destination: operands[0],
            destination_ty: self.type_of(operands[0]),
            source: operands[1],
            source_ty: self.type_of(operands[1]),
        }
    }

    /// Whether the routine `name` can be looked up for `op`: a module around it has a
    /// body, and what the body names by that symbol is live.
    pub open spec fn routine_ready(self, op: OpId, name: Seq<char>) -> bool {
        self.module_around(op) matches Some(module) ==> {
            let body = self.body_blocks(module)[0];
            let found = self.symbol_value(self.ir.block(body)->0.operations, name);
            &&& self.body_blocks(module).len() > 0
            &&& found is Some ==> self.ir.value(found->0) is Some
                && (found->0).0 < self.ir.values.now.len()
        }
    }
}

/// Whether an expansion ended: the state the intrinsic left is the current one
/// everywhere, and the intrinsic is gone with all it owned. One whose state was
/// lost, or answers by the state it would replace, is reported.
pub open spec fn finished(
    emitted: Emission,
    after: ContextView,
    block: BlockId,
    op: OpId,
    left: Option<ValueId>,
    r: Result<(), PassError>,
) -> bool {
    match left {
        None => r is Ok && erased_from(emitted.context, after, block, op),
        Some(old) => match emitted.state {
            Some(new) => if emitted.context.replaceable(old, new) {
                r is Ok && erased_from(
                    value_replaced(emitted.context, old, new),
                    after,
                    block,
                    op,
                )
            } else {
                after == emitted.context && fails(
                    r,
                    PassErrorView::InvalidRuleSet(
                        "a value cannot replace itself through a chain"@,
                    ),
                )
            },
            None => after == emitted.context && fails(
                r,
                PassErrorView::InvalidRuleSet("intrinsic expansion lost its memory state"@),
            ),
        },
    }
}

/// Forwards the outgoing state, even where an intrinsic of no size emitted nothing,
/// and takes the intrinsic out.
fn finish(
    context: &mut Context,
    block: BlockId,
    op: OpId,
    left: Option<ValueId>,
    state: Option<ValueId>,
) -> (r: Result<(), PassError>)
    requires
        old(context).inv(),
        state matches Some(s) ==> s.0 < u32::MAX,
    ensures
        final(context).inv(),
        finished(Emission { context: old(context)@, state }, final(context)@, block, op, left, r),
{
    if let Some(old_state) = left {
        match state {
            Some(new_state) => {
                if old_state != new_state && context.resolved_value(new_state) == old_state {
                    return Err(
                        PassError::InvalidRuleSet(
                            "a value cannot replace itself through a chain".to_owned(),
                        ),
                    );
                }
                context.replace_value_uses(old_state, new_state);
            },
            None => {
                return Err(
                    PassError::InvalidRuleSet(
                        "intrinsic expansion lost its memory state".to_owned(),
                    ),
                );
            },
        }
    }
    erase_op(context, block, op);
    Ok(())
}

/// Whether expanding `op` by a call of the routine `name` gave `r` and left `after`.
pub open spec fn library_called(
    before: ContextView,
    after: ContextView,
    op: OpId,
    name: Seq<char>,
    r: Result<(), PassError>,
) -> bool {
    let args = before.ir.op(op)->0.operands.take(3);
    match before.module_around(op) {
        None => after == before && fails(
            r,
            PassErrorView::InvalidRuleSet(
                "intrinsic runtime call requires an enclosing module"@,
            ),
        ),
        Some(module) => {
            let typed = before.with_routine_types();
            let pointer = typed.known_type(TypeView::Ptr(None));
            let params = typed.routine_params(name);
            let (declared, found) = lambda_of(typed, module, name, pointer, params);
            match found {
                Err(e) => after == declared && fails(r, e),
                Ok(callee) => finished(
                    declared.routine_called(
                        before.block_of(op),
                        op,
                        name,
                        callee,
                        args,
                        (pointer, params),
                        before.observed_state(op),
                    ),
                    after,
                    before.block_of(op),
                    op,
                    before.left_state(op),
                    r,
                ),
            }
        },
    }
}

/// Looking the routine up, or declaring it, leaves room and keeps where the
/// intrinsic stands.
pub proof fn looking_up_keeps(
    context: ContextView,
    module: OpId,
    name: Seq<char>,
    ret: TypeId,
    args: Seq<TypeId>,
    block: BlockId,
    op: OpId,
)
    requires
        context.takes_before(block, op),
        context.has_room(2),
    ensures
        lambda_of(context, module, name, ret, args).0.takes_before(block, op),
        context.grew(lambda_of(context, module, name, ret, args).0, 1),
        context.symbol_value(
            context.ir.block(context.body_blocks(module)[0])->0.operations,
            name,
        ) is None ==> context.next_value().0 < lambda_of(
            context,
            module,
            name,
            ret,
            args,
        ).0.ir.values.now.len(),
{
    let body = context.body_blocks(module)[0];
    let typed = with_fn_type(context, args, ret);
    assert(typed.takes_before(block, op));
    let view = func_declare_view(name, fn_type_id(context, args, ret));
    view.building_keeps(typed);
    placing_keeps_positions(typed, view, body, 0, block, op);
}

/// Expands `op` by a call of the routine `name`.
#[verifier::spinoff_prover]
#[verifier::rlimit(40)]
fn library_call(context: &mut Context, op: OpId, name: &str) -> (r: Result<(), PassError>)
    requires
        old(context).inv(),
        old(context)@.sound(),
        old(context)@.expandable(op),
        old(context)@.takes_before(old(context)@.block_of(op), op),
        old(context)@.has_room(64),
        old(context)@.routine_ready(op, name@),
        forall|i: int|
            0 <= i < old(context)@.ir.op(op)->0.operands.len() ==> (
            #[trigger] old(context)@.ir.op(op)->0.operands[i]).0
                < old(context)@.ir.values.now.len(),
    ensures
        final(context).inv(),
        library_called(old(context)@, final(context)@, op, name@, r),
{
    let ghost before = context@;
    let handle = context.get_op(op);
    assert(context@.op_sound(op));
    let block = context.parent_block(op).unwrap();
    let state = observed_state(context, &handle);
    let left = produced_state(context, &handle);
    let operands = context.operands_of(op);
    let mut args: Vec<ValueId> = vec![operands[0], operands[1], operands[2]];
    assert(args@ =~= before.ir.op(op)->0.operands.take(3));
    let module = match enclosing_module(context, op) {
        Ok(module) => module,
        Err(e) => {
            return Err(e);
        },
    };
    let (pointer, types) = routine_types(context, name);
    let ghost typed = context@;
    proof {
        module_is_live(before, enclosing(before.ir, op), before.ir.ops.now.len() + 1);
        interning_keeps_sound(before, typed);
        let body = before.body_blocks(module)[0];
        same_symbol_value(before, typed, before.ir.block(body)->0.operations, name@);
        looking_up_keeps(typed, module, name@, pointer, types@, block, op);
    }
    let callee = match ensure_lambda(context, module, name, pointer, &types) {
        Ok(callee) => callee,
        Err(e) => {
            return Err(e);
        },
    };
    let ghost declared = context@;
    assert(callee.0 < declared.ir.values.now.len());
    if same(name, "memset") {
        let wide = OpBuilder::new("builtin", "extui").operand(args[1]).result_type(types[1]);
        let wide = emit(context, block, op, wide);
        args.set(1, wide);
    }
    let ghost handed = args@;
    let ghost ready = context@;
    let call = CallOpBuilder::new().callee(callee).args(args).result_type(pointer);
    let call = threaded(call.0, state);
    assert(call@ == call_view(callee, handed, pointer, state));
    let first = emit(context, block, op, call);
    let next = match state {
        Some(_) => Some(ValueId(first.0 + 1)),
        None => None,
    };
    finish(context, block, op, left, next)
}

proof fn live_ids_are_below(context: ContextView, values: Seq<ValueId>)
    requires
        context.values_typed(values),
    ensures
        forall|i: int|
            0 <= i < values.len() ==> (#[trigger] values[i]).0 < context.ir.values.now.len(),
{
    assert forall|i: int| 0 <= i < values.len() implies (#[trigger] values[i]).0
        < context.ir.values.now.len() by {
        assert(context.ir.value(values[i]) is Some);
    }
}

/// Copies one chunk just before the intrinsic, and hands back the memory state that
/// leaves.
#[verifier::spinoff_prover]
#[verifier::rlimit(40)]
fn copy_chunk(
    context: &mut Context,
    Ghost(site): Ghost<Site>,
    destination: (BlockId, OpId, ValueId, TypeId),
    source: (ValueId, TypeId),
    chunk: Chunk,
    state: Option<ValueId>,
) -> (r: Option<ValueId>)
    requires
        old(context).inv(),
        old(context)@.takes_before(site.block, site.op),
        old(context)@.has_room(9),
        site == (Site {
            block: destination.0,
            op: destination.1,
            destination: destination.2,
            destination_ty: destination.3,
            source: source.0,
            source_ty: source.1,
        }),
        site.destination.0 < old(context)@.ir.values.now.len(),
        site.source.0 < old(context)@.ir.values.now.len(),
        state matches Some(s) ==> s.0 < old(context)@.ir.values.now.len(),
        chunk.bytes <= 8,
    ensures
        final(context).inv(),
        (Emission { context: final(context)@, state: r }) == (Emission {
            context: old(context)@,
            state,
        }).copied_chunk(site, chunk),
        final(context)@.takes_before(site.block, site.op),
        old(context)@.grew(final(context)@, 7),
        r matches Some(s) ==> s.0 < final(context)@.ir.values.now.len(),
{
    let (block, op, to, to_ty) = destination;
    let ty = integer_type(context, chunk.bytes * 8);
    let from = address(context, block, op, source.0, source.1, chunk.offset);
    let into = address(context, block, op, to, to_ty, chunk.offset);
    let load = threaded(OpBuilder::new("ptr", "load").operand(from).result_type(ty), state);
    let value = emit(context, block, op, load);
    let between = match state {
        Some(_) => Some(ValueId(value.0 + 1)),
        None => None,
    };
    store(context, block, op, into, value, between)
}

/// Fills one chunk just before the intrinsic, and hands back the memory state that
/// leaves.
#[verifier::spinoff_prover]
#[verifier::rlimit(40)]
fn fill_chunk(
    context: &mut Context,
    Ghost(site): Ghost<Site>,
    destination: (BlockId, OpId, ValueId, TypeId),
    source: ValueId,
    chunk: Chunk,
    state: Option<ValueId>,
) -> (r: Option<ValueId>)
    requires
        old(context).inv(),
        old(context)@.takes_before(site.block, site.op),
        old(context)@.has_room(9),
        site.block == destination.0,
        site.op == destination.1,
        site.destination == destination.2,
        site.destination_ty == destination.3,
        site.source == source,
        site.destination.0 < old(context)@.ir.values.now.len(),
        site.source.0 < old(context)@.ir.values.now.len(),
        state matches Some(s) ==> s.0 < old(context)@.ir.values.now.len(),
        chunk.bytes <= 8,
    ensures
        final(context).inv(),
        (Emission { context: final(context)@, state: r }) == (Emission {
            context: old(context)@,
            state,
        }).filled_chunk(site, chunk),
        final(context)@.takes_before(site.block, site.op),
        old(context)@.grew(final(context)@, 7),
        r matches Some(s) ==> s.0 < final(context)@.ir.values.now.len(),
{
    let (block, op, to, to_ty) = destination;
    let into = address(context, block, op, to, to_ty, chunk.offset);
    if chunk.bytes > 1 {
        let ty = integer_type(context, chunk.bytes * 8);
        let wide = OpBuilder::new("builtin", "extui").operand(source).result_type(ty);
        let wide = emit(context, block, op, wide);
        let pattern: u64 = fill_pattern(chunk.bytes);
        let ones = OpBuilder::new("builtin", "constant").attr(
            "value",
            AttributeValue::Int(pattern as i64),
        ).result_type(ty);
        let ones = emit(context, block, op, ones);
        let fill = OpBuilder::new("builtin", "muli").operand(wide).operand(ones).result_type(ty);
        let fill = emit(context, block, op, fill);
        store(context, block, op, into, fill, state)
    } else {
        store(context, block, op, into, source, state)
    }
}

/// What a target says, as the specifications take it.
pub open spec fn said(value: Option<&AttributeValue>) -> Option<AttrView> {
    match value {
        Some(v) => Some(v@),
        None => None,
    }
}

/// The accesses of a plan are of at most eight bytes, and there are at most eight.
proof fn plans_are_small(limit: Option<AttrView>, widths: Option<AttrView>, bytes: Option<u64>)
    requires
        inline_plan(limit, widths, bytes) is Some,
    ensures
        ({
            let chunks = inline_plan(limit, widths, bytes)->0;
            chunks.len() <= 8 && forall|i: int|
                0 <= i < chunks.len() ==> (#[trigger] chunks[i]).bytes <= 8
        }),
{
    chunks_are_small(0, bytes->0 as nat, widths_of(widths), 8);
}

proof fn chunks_are_small(offset: nat, bytes: nat, widths: Widths, room: nat)
    requires
        chunks_from(offset, bytes, widths, room) is Some,
    ensures
        ({
            let chunks = chunks_from(offset, bytes, widths, room)->0;
            chunks.len() <= room && forall|i: int|
                0 <= i < chunks.len() ==> (#[trigger] chunks[i]).bytes <= 8
        }),
    decreases room,
{
    if offset < bytes && room > 0 {
        let width = widths.widest((bytes - offset) as nat);
        chunks_are_small(offset + width, bytes, widths, (room - 1) as nat);
    }
}

fn bytes_of(context: &Context, size: ValueId) -> (r: Option<u64>)
    requires
        context.inv(),
        context@.sound(),
        context@.ir.value(size) is Some,
    ensures
        r == context@.known_bytes(size),
{
    match constant_of(context, size) {
        Some((n, width)) => Some(IntValue::new(width, n as u64).bits),
        None => None,
    }
}

impl MemcpyOp {
    /// Whether expanding this operation gave `r` and left `after`: the error where
    /// the target says what makes no sense, the accesses where they are inline, the
    /// call of `memcpy` where they are not.
    pub open spec fn expanded(
        self,
        before: ContextView,
        after: ContextView,
        limit: Option<AttrView>,
        widths: Option<AttrView>,
        r: Result<(), PassError>,
    ) -> bool {
        let op = self.0.id;
        let size = before.ir.op(op)->0.operands[2];
        match target_failure(limit, widths) {
            Some(e) => after == before && fails(r, e),
            None => match inline_plan(limit, widths, before.known_bytes(size)) {
                Some(chunks) => finished(
                    (Emission {
                        context: before,
                        state: before.observed_state(op),
                    }).copied(before.site(op), chunks, chunks.len() as int),
                    after,
                    before.block_of(op),
                    op,
                    before.left_state(op),
                    r,
                ),
                None => library_called(before, after, op, "memcpy"@, r),
            },
        }
    }

    /// Expands the copy into ordinary operations. `limit` and `widths` are what the
    /// target says of `memory_inline_bytes` and `memory_scalar_bytes`.
    #[verifier::spinoff_prover]
    #[verifier::rlimit(60)]
    pub fn expand(
        &self,
        context: &mut Context,
        limit: Option<&AttributeValue>,
        widths: Option<&AttributeValue>,
    ) -> (r: Result<(), PassError>)
        requires
            old(context).inv(),
            old(context)@.sound(),
            old(context)@.expandable(self.0.id),
            old(context)@.has_room(64),
            old(context)@.routine_ready(self.0.id, "memcpy"@),
        ensures
            final(context).inv(),
            self.expanded(old(context)@, final(context)@, said(limit), said(widths), r),
    {
        let op = self.0.id;
        let ghost before = context@;
        let ghost site = before.site(op);
        let handle = context.get_op(op);
        proof {
            assert(before.op_sound(op));
            live_ids_are_below(before, before.ir.op(op)->0.operands);
            let all = before.ir.op(op)->0.operands;
            assert(before.ir.value(all[0]) is Some && before.ir.value(all[1]) is Some
                && before.ir.value(all[2]) is Some);
        }
        let block = context.parent_block(op).unwrap();
        let mut state = observed_state(context, &handle);
        let left = produced_state(context, &handle);
        let operands = context.operands_of(op);
        let (to, from, size) = (operands[0], operands[1], operands[2]);
        let (to_ty, from_ty) = (context.get_value(to).ty, context.get_value(from).ty);
        let bytes: Option<u64> = bytes_of(context, size);
        let chunks = match inline_chunks(limit, widths, bytes) {
            Err(e) => {
                return Err(e);
            },
            Ok(None) => {
                return library_call(context, op, "memcpy");
            },
            Ok(Some(chunks)) => chunks,
        };
        proof {
            plans_are_small(said(limit), said(widths), bytes);
        }
        let ghost begun = Emission { context: before, state };
        let mut i: usize = 0;
        while i < chunks.len()
            invariant
                i <= chunks.len() <= 8,
                forall|k: int| 0 <= k < chunks@.len() ==> (#[trigger] chunks@[k]).bytes <= 8,
                context.inv(),
                before.has_room(64),
                begun.context == before,
                (Emission { context: context@, state }) == begun.copied(site, chunks@, i as int),
                context@.takes_before(site.block, site.op),
                before.grew(context@, 7 * i as nat),
                state matches Some(s) ==> s.0 < context@.ir.values.now.len(),
                site.destination.0 < before.ir.values.now.len(),
                site.source.0 < before.ir.values.now.len(),
                site == (Site {
                    block,
                    op,
                    destination: to,
                    destination_ty: to_ty,
                    source: from,
                    source_ty: from_ty,
                }),
            decreases chunks.len() - i,
        {
            state = copy_chunk(
                context,
                Ghost(site),
                (block, op, to, to_ty),
                (from, from_ty),
                chunks[i],
                state,
            );
            i += 1;
        }
        finish(context, block, op, left, state)
    }
}

impl MemsetOp {
    /// Whether expanding this operation gave `r` and left `after`: the error where
    /// the target says what makes no sense, the accesses where they are inline, the
    /// call of `memset` where they are not.
    pub open spec fn expanded(
        self,
        before: ContextView,
        after: ContextView,
        limit: Option<AttrView>,
        widths: Option<AttrView>,
        r: Result<(), PassError>,
    ) -> bool {
        let op = self.0.id;
        let size = before.ir.op(op)->0.operands[2];
        match target_failure(limit, widths) {
            Some(e) => after == before && fails(r, e),
            None => match inline_plan(limit, widths, before.known_bytes(size)) {
                Some(chunks) => finished(
                    (Emission {
                        context: before,
                        state: before.observed_state(op),
                    }).filled(before.site(op), chunks, chunks.len() as int),
                    after,
                    before.block_of(op),
                    op,
                    before.left_state(op),
                    r,
                ),
                None => library_called(before, after, op, "memset"@, r),
            },
        }
    }

    /// Expands the fill into ordinary operations. `limit` and `widths` are what the
    /// target says of `memory_inline_bytes` and `memory_scalar_bytes`.
    #[verifier::spinoff_prover]
    #[verifier::rlimit(60)]
    pub fn expand(
        &self,
        context: &mut Context,
        limit: Option<&AttributeValue>,
        widths: Option<&AttributeValue>,
    ) -> (r: Result<(), PassError>)
        requires
            old(context).inv(),
            old(context)@.sound(),
            old(context)@.expandable(self.0.id),
            old(context)@.has_room(64),
            old(context)@.routine_ready(self.0.id, "memset"@),
        ensures
            final(context).inv(),
            self.expanded(old(context)@, final(context)@, said(limit), said(widths), r),
    {
        let op = self.0.id;
        let ghost before = context@;
        let ghost site = before.site(op);
        let handle = context.get_op(op);
        proof {
            assert(before.op_sound(op));
            live_ids_are_below(before, before.ir.op(op)->0.operands);
            let all = before.ir.op(op)->0.operands;
            assert(before.ir.value(all[0]) is Some && before.ir.value(all[2]) is Some);
        }
        let block = context.parent_block(op).unwrap();
        let mut state = observed_state(context, &handle);
        let left = produced_state(context, &handle);
        let operands = context.operands_of(op);
        let (to, value, size) = (operands[0], operands[1], operands[2]);
        let to_ty = context.get_value(to).ty;
        let bytes: Option<u64> = bytes_of(context, size);
        let chunks = match inline_chunks(limit, widths, bytes) {
            Err(e) => {
                return Err(e);
            },
            Ok(None) => {
                return library_call(context, op, "memset");
            },
            Ok(Some(chunks)) => chunks,
        };
        proof {
            plans_are_small(said(limit), said(widths), bytes);
        }
        let ghost begun = Emission { context: before, state };
        let mut i: usize = 0;
        while i < chunks.len()
            invariant
                i <= chunks.len() <= 8,
                forall|k: int| 0 <= k < chunks@.len() ==> (#[trigger] chunks@[k]).bytes <= 8,
                context.inv(),
                before.has_room(64),
                begun.context == before,
                (Emission { context: context@, state }) == begun.filled(site, chunks@, i as int),
                context@.takes_before(site.block, site.op),
                before.grew(context@, 7 * i as nat),
                state matches Some(s) ==> s.0 < context@.ir.values.now.len(),
                site.destination.0 < before.ir.values.now.len(),
                site.source.0 < before.ir.values.now.len(),
                site.block == block,
                site.op == op,
                site.destination == to,
                site.destination_ty == to_ty,
                site.source == value,
            decreases chunks.len() - i,
        {
            state = fill_chunk(
                context,
                Ghost(site),
                (block, op, to, to_ty),
                value,
                chunks[i],
                state,
            );
            i += 1;
        }
        finish(context, block, op, left, state)
    }
}

/// An intrinsic that was expanded is gone.
pub proof fn expanded_intrinsics_are_gone(
    emitted: Emission,
    after: ContextView,
    block: BlockId,
    op: OpId,
    left: Option<ValueId>,
    r: Result<(), PassError>,
)
    requires
        finished(emitted, after, block, op, left, r),
        r is Ok,
    ensures
        after.ir.op(op) is None,
{
    let before = match (left, emitted.state) {
        (Some(old), Some(new)) => value_replaced(emitted.context, old, new),
        _ => emitted.context,
    };
    let detached = match before.position_in(block, op) {
        Some(at) => before.with_op_removed(block, at, op),
        None => before,
    };
    if detached.ir.op(op) is Some {
        assert(op_within(detached.ir, seq![op], Seq::empty(), op, 0)) by {
            assert(seq![op].contains(op)) by {
                assert(seq![op][0] == op);
            }
        }
        assert(op_owned(detached.ir, seq![op], Seq::empty(), op));
    }
}

} // verus!

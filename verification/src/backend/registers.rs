//! The one register notation of machine IR.
//!
//! A register operand of a machine instruction is an SSA operand or result
//! whose type is its register class. A physical register the instruction names
//! directly (an assembler input, a hardwired `x0`, the stack pointer in prologue
//! code) is an attribute literal in the same slot. Which slots an opcode has, in
//! which order, and what class each admits is a per-opcode fact: [`InstrInfo`].
//!
//! Register allocation does not rewrite those slots. It writes a
//! [`RegAssignment`] onto the function's symbol, and assembly printing and
//! encoding resolve a slot holding a value through that map.
use vstd::prelude::*;
use crate::attributes::attr_view;
use crate::attributes::attr_views;
use crate::attributes::dict_lookup;
use crate::attributes::drop_attribute;
use crate::attributes::named_views;
use crate::attributes::phys_attr;
use crate::attributes::with_entry;
use crate::attributes::without_attribute;
use crate::attributes::AttrView;
use crate::attributes::AttributeDict;
use crate::attributes::AttributeValue;
use crate::attributes::NamedAttribute;
use crate::attributes::RegisterAttr;
use crate::backend::classes::ClassView;
use crate::backend::classes::PhysReg;
use crate::backend::classes::RegClassId;
use crate::context::edits::first_position;
use crate::context::kept::interning_keeps_sound;
use crate::context::kept::keeps;
use crate::context::kept::minting_keeps_sound;
use crate::context::Context;
use crate::context::ContextView;
use crate::ids::OpId;
use crate::ids::TypeId;
use crate::ids::ValueId;
use crate::journal::enclosing;
use crate::text::same;
use crate::ty::interned;
use crate::ty::RegClassType;
use crate::ty::Type;
use crate::ty::TypeView;

verus! {

/// One register slot of a machine opcode, in the order the opcode declares them.
///
/// A def port is an SSA result, a use port an SSA operand, both in port order
/// among the ports of their direction; a port whose slot holds a physical
/// literal on a given instance takes no SSA position there.
#[derive(Debug, Clone, Copy)]
pub struct RegPort {
    /// The name the opcode's assembly syntax, encoding and behavior use for this
    /// slot.
    pub name: &'static str,
    /// The class the instruction encodes here, narrowing the value's own class.
    /// `None` where the instruction admits whatever class the value carries.
    pub class: Option<RegClassId>,
    pub def: bool,
    /// The def port this operand must share a register with, by name: a
    /// two-address destination read.
    pub tied_to: Option<&'static str>,
}

impl RegPort {
    /// A port that reads a register of `class`.
    pub fn use_of(name: &'static str, class: RegClassId) -> (r: Self)
        ensures
            r == (RegPort { name, class: Some(class), def: false, tied_to: None }),
    {
        RegPort { name, class: Some(class), def: false, tied_to: None }
    }

    /// A port that writes a register of `class`.
    pub fn def_of(name: &'static str, class: RegClassId) -> (r: Self)
        ensures
            r == (RegPort { name, class: Some(class), def: true, tied_to: None }),
    {
        RegPort { name, class: Some(class), def: true, tied_to: None }
    }
}

/// What an opcode declares: its register slots.
#[derive(Debug)]
pub struct InstrInfo {
    pub dialect: &'static str,
    pub name: &'static str,
    pub regs: Vec<RegPort>,
}

/// The opcodes of a machine, and which of its operations call and return.
#[derive(Debug)]
pub struct Machine {
    pub instructions: Vec<InstrInfo>,
    pub call_ops: Vec<(&'static str, &'static str)>,
    pub return_ops: Vec<(&'static str, &'static str)>,
}

/// Whether a list of op identities holds `identity`.
pub open spec fn lists_identity(
    list: Seq<(&'static str, &'static str)>,
    identity: (Seq<char>, Seq<char>),
) -> bool {
    exists|i: int|
        0 <= i < list.len() && ((#[trigger] list[i]).0@, list[i].1@) == identity
}

fn holds_identity(list: &Vec<(&'static str, &'static str)>, dialect: &str, name: &str) -> (r: bool)
    ensures
        r == lists_identity(list@, (dialect@, name@)),
{
    let mut i: usize = 0;
    while i < list.len()
        invariant
            i <= list.len(),
            forall|j: int| 0 <= j < i ==> ((#[trigger] list@[j]).0@, list@[j].1@) != (dialect@, name@),
        decreases list.len() - i,
    {
        if same(list[i].0, dialect) && same(list[i].1, name) {
            assert((list@[i as int].0@, list@[i as int].1@) == (dialect@, name@));
            return true;
        }
        i += 1;
    }
    false
}

impl Machine {
    /// Whether the op spelled like this is a call.
    pub open spec fn is_call(self, identity: (Seq<char>, Seq<char>)) -> bool {
        lists_identity(self.call_ops@, identity)
    }

    /// Whether the op spelled like this returns from the function.
    pub open spec fn is_return(self, identity: (Seq<char>, Seq<char>)) -> bool {
        lists_identity(self.return_ops@, identity)
    }

    /// Whether the op spelled `dialect.name` is a call.
    pub fn enters(&self, dialect: &str, name: &str) -> (r: bool)
        ensures
            r == self.is_call((dialect@, name@)),
    {
        holds_identity(&self.call_ops, dialect, name)
    }

    /// Whether the op spelled `dialect.name` returns from the function.
    pub fn leaves(&self, dialect: &str, name: &str) -> (r: bool)
        ensures
            r == self.is_return((dialect@, name@)),
    {
        holds_identity(&self.return_ops, dialect, name)
    }
}

/// The position of the opcode spelled `dialect.name`.
pub open spec fn opcode(instructions: Seq<InstrInfo>, identity: (Seq<char>, Seq<char>)) -> Option<
    int,
>
    decreases instructions.len(),
{
    if instructions.len() == 0 {
        None
    } else if (instructions[0].dialect@, instructions[0].name@) == identity {
        Some(0)
    } else {
        match opcode(instructions.skip(1), identity) {
            Some(i) => Some(i + 1),
            None => None,
        }
    }
}

/// The register ports an opcode declares, in order.
pub open spec fn ports_of(machine: Machine, identity: (Seq<char>, Seq<char>)) -> Seq<RegPort> {
    match opcode(machine.instructions@, identity) {
        Some(i) => machine.instructions@[i].regs@,
        None => Seq::empty(),
    }
}

impl Machine {
    /// The register ports `op`'s opcode declares, in order.
    pub fn reg_ports(&self, context: &Context, op: OpId) -> (r: Vec<RegPort>)
        requires
            context.inv(),
            context@.readable(op),
        ensures
            r@ == ports_of(*self, context@.identity(op)),
    {
        let (dialect, name) = context.op_identity(op);
        let ghost identity = context@.identity(op);
        let ghost all = self.instructions@;
        assert(all.skip(0) =~= all);
        let mut i: usize = 0;
        while i < self.instructions.len()
            invariant
                i <= self.instructions.len(),
                all == self.instructions@,
                identity == (dialect@, name@),
                identity == context@.identity(op),
                match opcode(all.skip(i as int), identity) {
                    Some(k) => opcode(all, identity) == Some(k + i),
                    None => opcode(all, identity) is None,
                },
            decreases self.instructions.len() - i,
        {
            let ghost rest = all.skip(i as int);
            assert(rest[0] == all[i as int]);
            assert(rest.skip(1) =~= all.skip(i + 1));
            if same(self.instructions[i].dialect, dialect) && same(
                self.instructions[i].name,
                name,
            ) {
                return crate::ir::copy_list(&self.instructions[i].regs);
            }
            i += 1;
        }
        assert(all.skip(i as int).len() == 0);
        let none: Vec<RegPort> = Vec::new();
        assert(none@ =~= Seq::empty());
        none
    }
}

/// Where one register slot of an instruction instance lives.
#[derive(Debug, Clone, Copy)]
pub enum RegSlot {
    /// An SSA value: the operand or result at this port.
    Value(ValueId),
    /// A physical register the instruction names directly.
    Phys(PhysReg),
}

/// What a slot holds.
pub ghost enum SlotKind {
    Value(ValueId),
    Phys(ClassView, u16),
}

impl View for RegSlot {
    type V = SlotKind;

    open spec fn view(&self) -> SlotKind {
        match self {
            RegSlot::Value(value) => SlotKind::Value(*value),
            RegSlot::Phys(p) => SlotKind::Phys(p.0@, p.1),
        }
    }
}

/// One resolved register slot of an instruction instance.
#[derive(Debug, Clone, Copy)]
pub struct SlotRef {
    pub port: RegPort,
    pub slot: RegSlot,
    /// Position among the op's value operands (a use port) or value results (a
    /// def port); `None` for a port naming a physical register.
    pub position: Option<usize>,
}

/// A slot as it was resolved.
pub ghost struct SlotView {
    pub port: RegPort,
    pub slot: SlotKind,
    pub position: Option<usize>,
}

impl View for SlotRef {
    type V = SlotView;

    open spec fn view(&self) -> SlotView {
        SlotView { port: self.port, slot: self.slot@, position: self.position }
    }
}

/// How many of the first `n` ports of one direction take an SSA position: those
/// whose attribute is not set.
pub open spec fn positions_taken(
    context: ContextView,
    op: OpId,
    ports: Seq<RegPort>,
    n: int,
    def: bool,
) -> nat
    decreases n,
{
    if n <= 0 {
        0
    } else {
        positions_taken(context, op, ports, n - 1, def) + if ports[n - 1].def == def
            && context.attr(op, ports[n - 1].name@) is None {
            1nat
        } else {
            0
        }
    }
}

/// What the port at `i` resolves to: a port whose attribute is set resolves to
/// it (a physical register, or nothing at all where the slot was materialized
/// into a constant) and takes no SSA position; every other port takes the next
/// operand or result of its direction.
pub open spec fn slot_at(context: ContextView, op: OpId, ports: Seq<RegPort>, i: int) -> Option<
    SlotView,
> {
    let port = ports[i];
    match context.attr(op, port.name@) {
        Some(value) => match value {
            AttrView::Physical(class, index) => Some(
                SlotView { port, slot: SlotKind::Phys(class, index), position: None },
            ),
            _ => None,
        },
        None => {
            let position = positions_taken(context, op, ports, i, port.def);
            let list = if port.def {
                context.value_results(op)
            } else {
                context.value_operands(op)
            };
            if position < list.len() {
                Some(
                    SlotView {
                        port,
                        slot: SlotKind::Value(list[position as int]),
                        position: Some(position as usize),
                    },
                )
            } else {
                None
            }
        },
    }
}

/// What the first `n` ports resolve to, in port order.
pub open spec fn slots(context: ContextView, op: OpId, ports: Seq<RegPort>, n: int) -> Seq<SlotView>
    decreases n,
{
    if n <= 0 {
        Seq::empty()
    } else {
        let before = slots(context, op, ports, n - 1);
        match slot_at(context, op, ports, n - 1) {
            Some(slot) => before.push(slot),
            None => before,
        }
    }
}

/// Every register slot of `op`.
pub open spec fn slots_of(context: ContextView, machine: Machine, op: OpId) -> Seq<SlotView> {
    let ports = ports_of(machine, context.identity(op));
    slots(context, op, ports, ports.len() as int)
}

/// A list of slots, as they were resolved.
pub open spec fn slot_views(list: Seq<SlotRef>) -> Seq<SlotView> {
    list.map_values(|s: SlotRef| s@)
}

proof fn positions_fit(
    context: ContextView,
    op: OpId,
    ports: Seq<RegPort>,
    n: int,
    def: bool,
)
    requires
        0 <= n,
    ensures
        positions_taken(context, op, ports, n, def) <= n,
    decreases n,
{
    if n > 0 {
        positions_fit(context, op, ports, n - 1, def);
    }
}

/// Resolves every register slot of `op` in port order.
///
/// A port whose attribute is set resolves to it and consumes no SSA position;
/// every other port takes the next operand (or result) of its direction.
pub fn reg_slots(context: &Context, machine: &Machine, op: OpId) -> (r: Vec<SlotRef>)
    requires
        context.inv(),
        context@.readable(op),
    ensures
        slot_views(r@) == slots_of(context@, *machine, op),
{
    let ports = machine.reg_ports(context, op);
    let operands = context.get_op(op).value_operands(context);
    let results = context.get_op(op).value_results(context);
    let mut next_operand: usize = 0;
    let mut next_result: usize = 0;
    let mut r: Vec<SlotRef> = Vec::new();
    let mut i: usize = 0;
    assert(slot_views(r@) =~= slots(context@, op, ports@, 0));
    while i < ports.len()
        invariant
            context.inv(),
            i <= ports.len(),
            ports@ == ports_of(*machine, context@.identity(op)),
            operands@ == context@.value_operands(op),
            results@ == context@.value_results(op),
            next_operand == positions_taken(context@, op, ports@, i as int, false),
            next_result == positions_taken(context@, op, ports@, i as int, true),
            slot_views(r@) =~= slots(context@, op, ports@, i as int),
        decreases ports.len() - i,
    {
        let port = ports[i];
        let ghost before = slot_views(r@);
        proof {
            positions_fit(context@, op, ports@, i as int, false);
            positions_fit(context@, op, ports@, i as int, true);
        }
        match context.with_attr(op, port.name) {
            Some(value) => {
                if let AttributeValue::Register(register) = value {
                    if let RegisterAttr::Physical { class, index } = register {
                        let slot = SlotRef {
                            port,
                            slot: RegSlot::Phys((*class, *index)),
                            position: None,
                        };
                        r.push(slot);
                        assert(slot_views(r@) =~= before.push(slot@));
                    }
                }
            },
            None => {
                let position: usize = if port.def {
                    next_result
                } else {
                    next_operand
                };
                let found: Option<ValueId> = if port.def {
                    next_result = next_result + 1;
                    if position < results.len() {
                        Some(results.at(position))
                    } else {
                        None
                    }
                } else {
                    next_operand = next_operand + 1;
                    if position < operands.len() {
                        Some(operands.at(position))
                    } else {
                        None
                    }
                };
                if let Some(value) = found {
                    let slot = SlotRef {
                        port,
                        slot: RegSlot::Value(value),
                        position: Some(position),
                    };
                    r.push(slot);
                    assert(slot_views(r@) =~= before.push(slot@));
                }
            },
        }
        i += 1;
    }
    r
}

/// The first of `list` whose port is called `name`.
pub open spec fn slot_named(list: Seq<SlotView>, name: Seq<char>) -> Option<SlotKind>
    decreases list.len(),
{
    if list.len() == 0 {
        None
    } else if list[0].port.name@ == name {
        Some(list[0].slot)
    } else {
        slot_named(list.skip(1), name)
    }
}

/// [`reg_slots`] for one port, by name.
pub fn reg_slot(context: &Context, machine: &Machine, op: OpId, name: &str) -> (r: Option<RegSlot>)
    requires
        context.inv(),
        context@.readable(op),
    ensures
        match r {
            Some(slot) => slot_named(slots_of(context@, *machine, op), name@) == Some(slot@),
            None => slot_named(slots_of(context@, *machine, op), name@) is None,
        },
{
    let list = reg_slots(context, machine, op);
    let ghost all = slot_views(list@);
    assert(all.skip(0) =~= all);
    let mut i: usize = 0;
    while i < list.len()
        invariant
            i <= list.len(),
            all == slot_views(list@),
            all == slots_of(context@, *machine, op),
            slot_named(all, name@) == slot_named(all.skip(i as int), name@),
        decreases list.len() - i,
    {
        assert(all.skip(i as int)[0] == list@[i as int]@);
        assert(all.skip(i as int).skip(1) =~= all.skip(i + 1));
        if same(list[i].port.name, name) {
            return Some(list[i].slot);
        }
        i += 1;
    }
    assert(all.skip(i as int).len() == 0);
    None
}

impl ContextView {
    /// The class `value` holds, where it is live and a register.
    pub open spec fn register_class(self, value: ValueId) -> Option<ClassView> {
        match self.ir.value(value) {
            Some(entry) => match self.types[entry.value.ty.0 as int] {
                TypeView::RegClass(class) => Some(class),
                _ => None,
            },
            None => None,
        }
    }
}

/// Whether a class was found exactly where one is expected, and it is the same.
pub open spec fn found_class(r: Option<RegClassId>, want: Option<ClassView>) -> bool {
    match r {
        Some(class) => want == Some(class@),
        None => want is None,
    }
}

/// The register class `ty` denotes, or `None` if it is not a register class type.
pub fn type_class(context: &Context, ty: TypeId) -> (r: Option<RegClassId>)
    requires
        context.inv(),
        ty.0 < context@.types.len(),
    ensures
        found_class(
            r,
            match context@.types[ty.0 as int] {
                TypeView::RegClass(class) => Some(class),
                _ => None,
            },
        ),
{
    match context.get_type_data(ty) {
        Type::RegClass(t) => Some(t.class()),
        _ => None,
    }
}

/// The register class `value` holds, or `None` if it is not a register, or no
/// longer exists, which printing a stale reference must survive.
pub fn value_class(context: &Context, value: ValueId) -> (r: Option<RegClassId>)
    requires
        context.inv(),
        context@.value_sound(value),
    ensures
        found_class(r, context@.register_class(value)),
{
    if !context.has_value(value) {
        return None;
    }
    type_class(context, context.get_value(value).ty)
}

/// The register class a slot holds: the physical register's own, or the class
/// the value's type names.
pub fn slot_class(context: &Context, slot: RegSlot) -> (r: Option<RegClassId>)
    requires
        context.inv(),
        slot is Value ==> context@.value_sound(slot->Value_0),
    ensures
        found_class(
            r,
            match slot@ {
                SlotKind::Phys(class, _) => Some(class),
                SlotKind::Value(value) => context@.register_class(value),
            },
        ),
{
    match slot {
        RegSlot::Phys(p) => Some(p.0),
        RegSlot::Value(value) => value_class(context, value),
    }
}

/// The context after the type of a register class was interned.
pub open spec fn with_class_type(context: ContextView, class: ClassView) -> ContextView {
    ContextView { types: interned(context.types, TypeView::RegClass(class)), ..context }
}

/// The id of the type of a register class that was interned.
pub open spec fn class_type_id(context: ContextView, class: ClassView) -> TypeId {
    TypeId(
        first_position(with_class_type(context, class).types, TypeView::RegClass(class))->0 as u32,
    )
}

impl ContextView {
    /// The id the next value is minted under.
    pub open spec fn next_value(self) -> ValueId {
        ValueId(self.ir.values.now.len() as u32)
    }

    /// With a fresh value of `class`.
    pub open spec fn with_fresh(self, class: ClassView) -> Self {
        with_class_type(self, class).with_value(class_type_id(self, class), None)
    }
}

/// A fresh value of `class`: the type a machine instruction reads it through.
pub fn fresh_reg(context: &mut Context, class: RegClassId) -> (v: ValueId)
    requires
        old(context).inv(),
        old(context)@.types.len() < u32::MAX,
        old(context)@.ir.values.now.len() < u32::MAX,
    ensures
        final(context).inv(),
        keeps(old(context)@, final(context)@),
        v == old(context)@.next_value(),
        final(context)@ == old(context)@.with_fresh(class@),
{
    let ghost before = context@;
    let ty = context.get_type_id(Type::RegClass(RegClassType(class)));
    proof {
        if before.sound() {
            interning_keeps_sound(before, context@);
            minting_keeps_sound(context@, ty);
        }
    }
    let v = context.create_value(ty, None);
    v.id
}

/// Gives a value with no register class the class a machine instruction first
/// reads it through. Selection retypes the mid-end values it binds, so every
/// value a machine instruction names is a register.
pub fn retype_untyped(context: &mut Context, value: ValueId, class: RegClassId)
    requires
        old(context).inv(),
        old(context)@.value_sound(value),
        old(context)@.types.len() < u32::MAX,
    ensures
        final(context).inv(),
        final(context)@ == if old(context)@.register_class(value) is Some {
            old(context)@
        } else {
            with_class_type(old(context)@, class@).with_value_type(
                value,
                class_type_id(old(context)@, class@),
            )
        },
{
    if value_class(context, value).is_none() {
        let ty = context.get_type_id(Type::RegClass(RegClassType(class)));
        context.retype_value(value, ty);
    }
}

/// The attribute the total assignment is carried in, written by register
/// allocation onto the function's symbol.
pub const ASSIGNMENT_ATTR: &'static str = "assignment";

/// The attribute an instruction carries its pre-coloring constraints in: the
/// physical register each named register slot must hold. A pin belongs to the
/// slot, not to the value in it: a rewrite that renames the value leaves the
/// instruction's requirement where it was.
pub const PINS_ATTR: &'static str = "pins";

/// The attribute a symbol carries the calling convention's placement of its
/// arguments in: value to register, since an argument is placed by what it is
/// rather than by where an instruction reads it.
pub const ARG_PINS_ATTR: &'static str = "arg_pins";

impl ContextView {
    /// The register the slot called `name` of `op` is pinned to.
    pub open spec fn slot_pin(self, op: OpId, name: Seq<char>) -> Option<(ClassView, u16)> {
        match self.attr(op, "pins"@) {
            Some(AttrView::Dict(pins)) => match dict_lookup(pins, name) {
                Some(AttrView::Physical(class, index)) => Some((class, index)),
                _ => None,
            },
            _ => None,
        }
    }
}

/// Whether a register was found exactly where one is expected, and it is the
/// same.
pub open spec fn found_register(r: Option<PhysReg>, want: Option<(ClassView, u16)>) -> bool {
    match r {
        Some(p) => want == Some((p.0@, p.1)),
        None => want is None,
    }
}

/// The register the slot named `name` of `op` is pinned to.
pub fn slot_pin(context: &Context, op: OpId, name: &str) -> (r: Option<PhysReg>)
    requires
        context.inv(),
    ensures
        found_register(r, context@.slot_pin(op, name@)),
{
    match context.with_attr(op, "pins") {
        Some(AttributeValue::Dict(pins)) => match pins.get(name) {
            Some(AttributeValue::Register(RegisterAttr::Physical { class, index })) => Some(
                (*class, *index),
            ),
            _ => None,
        },
        _ => None,
    }
}

impl ContextView {
    /// What `op` pins, slot by slot.
    pub open spec fn pins(self, op: OpId) -> Seq<(Seq<char>, AttrView)> {
        match self.attr(op, "pins"@) {
            Some(AttrView::Dict(pins)) => pins,
            _ => Seq::empty(),
        }
    }

    /// With the slot `name` of a live operation pinned.
    pub open spec fn with_pin(
        self,
        op: OpId,
        name: Seq<char>,
        class: ClassView,
        index: u16,
    ) -> Self {
        self.with_op_attributes(
            op,
            without_attribute(self.ir.op(op)->0.attributes, "pins"@).push(
                (
                    "pins"@,
                    AttrView::Dict(
                        with_entry(self.pins(op), name, AttrView::Physical(class, index)),
                    ),
                ),
            ),
        )
    }
}

/// Requires `op`'s slot `name` to hold `register`.
pub fn pin_slot(context: &mut Context, op: OpId, name: &str, register: PhysReg)
    requires
        old(context).inv(),
        old(context)@.ir.op(op) is Some,
    ensures
        final(context).inv(),
        final(context)@ == old(context)@.with_pin(op, name@, register.0@, register.1),
{
    let pins: AttributeDict = match context.op_attr(op, "pins") {
        Some(AttributeValue::Dict(pins)) => pins,
        _ => AttributeDict::new(),
    };
    assert(pins@ == context@.pins(op));
    let mut attributes = drop_attribute(&context.op_attributes(op), "pins");
    let ghost kept = named_views(attributes@);
    let value = AttributeValue::Dict(pins.with(name, phys_attr(register)));
    let named = NamedAttribute::new("pins", value);
    let ghost added = named@;
    attributes.push(named);
    assert(named_views(attributes@) =~= kept.push(added));
    context.set_op_attributes(op, attributes);
}

/// The register a function's values were allocated, written onto its symbol by
/// register allocation and read by assembly printing and encoding. Partial
/// before allocation, where precoloring pins entries, and total over the
/// function's register-typed values after it.
#[derive(Debug)]
pub struct RegAssignment {
    entries: Vec<(ValueId, PhysReg)>,
}

/// What an assignment says of a value.
pub open spec fn assigned_to(entries: Seq<(ValueId, (ClassView, u16))>, value: ValueId) -> Option<
    (ClassView, u16),
>
    decreases entries.len(),
{
    if entries.len() == 0 {
        None
    } else if entries[0].0 == value {
        Some(entries[0].1)
    } else {
        assigned_to(entries.skip(1), value)
    }
}

/// The entries with `value` given `register`: in place of its entry, or after
/// all others.
pub open spec fn with_assigned(
    entries: Seq<(ValueId, (ClassView, u16))>,
    value: ValueId,
    register: (ClassView, u16),
) -> Seq<(ValueId, (ClassView, u16))>
    decreases entries.len(),
{
    if entries.len() == 0 {
        seq![(value, register)]
    } else if entries[0].0 == value {
        seq![(value, register)] + entries.skip(1)
    } else {
        seq![entries[0]] + with_assigned(entries.skip(1), value, register)
    }
}

/// What was given is what is read back, and nothing else changed.
pub proof fn assignment_is_read_back(
    entries: Seq<(ValueId, (ClassView, u16))>,
    value: ValueId,
    register: (ClassView, u16),
    other: ValueId,
)
    ensures
        assigned_to(with_assigned(entries, value, register), value) == Some(register),
        other != value ==> assigned_to(with_assigned(entries, value, register), other)
            == assigned_to(entries, other),
    decreases entries.len(),
{
    let set = with_assigned(entries, value, register);
    if entries.len() == 0 {
        assert(set.skip(1) =~= Seq::empty());
        assert(assigned_to(set.skip(1), other) is None);
    } else if entries[0].0 == value {
        assert(set.skip(1) =~= entries.skip(1));
    } else {
        assignment_is_read_back(entries.skip(1), value, register, other);
        assert(set.skip(1) =~= with_assigned(entries.skip(1), value, register));
    }
}

/// Whether no value has two entries.
pub open spec fn unique_values(entries: Seq<(ValueId, (ClassView, u16))>) -> bool {
    forall|i: int, j: int|
        0 <= i < j < entries.len() ==> (#[trigger] entries[i]).0 != (#[trigger] entries[j]).0
}

/// Assigning keeps one entry for each value.
pub proof fn assigning_keeps_values_unique(
    entries: Seq<(ValueId, (ClassView, u16))>,
    value: ValueId,
    register: (ClassView, u16),
)
    requires
        unique_values(entries),
    ensures
        unique_values(with_assigned(entries, value, register)),
        forall|i: int|
            0 <= i < with_assigned(entries, value, register).len() ==> (
            #[trigger] with_assigned(entries, value, register)[i]).0 == value || exists|j: int|
                0 <= j < entries.len() && (#[trigger] entries[j]).0 == with_assigned(
                    entries,
                    value,
                    register,
                )[i].0,
    decreases entries.len(),
{
    let set = with_assigned(entries, value, register);
    if entries.len() > 0 && entries[0].0 != value {
        let rest = entries.skip(1);
        assert forall|i: int, j: int| 0 <= i < j < rest.len() implies (#[trigger] rest[i]).0 != (
        #[trigger] rest[j]).0 by {
            assert(rest[i] == entries[i + 1]);
            assert(rest[j] == entries[j + 1]);
        }
        assigning_keeps_values_unique(rest, value, register);
        let tail = with_assigned(rest, value, register);
        assert forall|i: int| 0 <= i < set.len() implies (#[trigger] set[i]).0 == value || exists|
            j: int,
        |
            0 <= j < entries.len() && (#[trigger] entries[j]).0 == set[i].0 by {
            if i > 0 {
                assert(set[i] == tail[i - 1]);
                if tail[i - 1].0 != value {
                    let j = choose|j: int|
                        0 <= j < rest.len() && (#[trigger] rest[j]).0 == tail[i - 1].0;
                    assert(entries[j + 1].0 == set[i].0);
                }
            }
        }
        assert forall|i: int, j: int| 0 <= i < j < set.len() implies (#[trigger] set[i]).0 != (
        #[trigger] set[j]).0 by {
            assert(set[j] == tail[j - 1]);
            if i > 0 {
                assert(set[i] == tail[i - 1]);
            } else if tail[j - 1].0 != value {
                let k = choose|k: int|
                    0 <= k < rest.len() && (#[trigger] rest[k]).0 == tail[j - 1].0;
                assert(rest[k] == entries[k + 1]);
            }
        }
    }
}

proof fn unique_entry_is_found(
    entries: Seq<(ValueId, (ClassView, u16))>,
    value: ValueId,
    register: (ClassView, u16),
)
    requires
        unique_values(entries),
    ensures
        assigned_to(entries, value) == Some(register) <==> entries.contains((value, register)),
    decreases entries.len(),
{
    if entries.len() > 0 {
        let rest = entries.skip(1);
        assert forall|i: int, j: int| 0 <= i < j < rest.len() implies (#[trigger] rest[i]).0 != (
        #[trigger] rest[j]).0 by {
            assert(rest[i] == entries[i + 1]);
            assert(rest[j] == entries[j + 1]);
        }
        unique_entry_is_found(rest, value, register);
        if entries.contains((value, register)) {
            let i = choose|i: int| 0 <= i < entries.len() && entries[i] == (value, register);
            if i > 0 {
                assert(rest[i - 1] == entries[i]);
                assert(entries[0].0 != entries[i].0);
            }
        }
        if rest.contains((value, register)) {
            let i = choose|i: int| 0 <= i < rest.len() && rest[i] == (value, register);
            assert(entries[i + 1] == (value, register));
        }
        if entries[0].0 == value && assigned_to(entries, value) == Some(register) {
            assert(entries[0] == (value, register));
        }
    }
}

proof fn absent_value_is_appended(
    entries: Seq<(ValueId, (ClassView, u16))>,
    value: ValueId,
    register: (ClassView, u16),
)
    requires
        forall|i: int| 0 <= i < entries.len() ==> (#[trigger] entries[i]).0 != value,
    ensures
        with_assigned(entries, value, register) == entries.push((value, register)),
    decreases entries.len(),
{
    if entries.len() > 0 {
        let rest = entries.skip(1);
        assert forall|i: int| 0 <= i < rest.len() implies (#[trigger] rest[i]).0 != value by {
            assert(rest[i] == entries[i + 1]);
        }
        absent_value_is_appended(rest, value, register);
        assert(seq![entries[0]] + rest.push((value, register)) =~= entries.push((value, register)));
    } else {
        assert(entries.push((value, register)) =~= seq![(value, register)]);
    }
}

proof fn unique_entries_are_spelled(entries: Seq<(ValueId, (ClassView, u16))>, n: int)
    requires
        unique_values(entries),
        0 <= n <= entries.len(),
    ensures
        spelled_entries(entry_items(entries), n) == entries.take(n),
    decreases n,
{
    if n > 0 {
        unique_entries_are_spelled(entries, n - 1);
        let before = entries.take(n - 1);
        assert forall|i: int| 0 <= i < before.len() implies (#[trigger] before[i]).0
            != entries[n - 1].0 by {
            assert(before[i] == entries[i]);
        }
        absent_value_is_appended(before, entries[n - 1].0, entries[n - 1].1);
        assert(entries.take(n) =~= before.push(entries[n - 1]));
    } else {
        assert(entries.take(0) =~= Seq::empty());
    }
}

/// An assignment written out in any order and read back gives every value the
/// register it had.
pub proof fn written_assignment_is_read_back(
    entries: Seq<(ValueId, (ClassView, u16))>,
    written: Seq<(ValueId, (ClassView, u16))>,
    value: ValueId,
)
    requires
        unique_values(entries),
        written.to_multiset() == entries.to_multiset(),
    ensures
        assigned_to(spelled_assignment(Some(AttrView::Array(entry_items(written)))), value)
            == assigned_to(entries, value),
{
    broadcast use vstd::seq_lib::group_to_multiset_ensures;

    assert forall|i: int, j: int| 0 <= i < j < written.len() implies (#[trigger] written[i]).0 != (
    #[trigger] written[j]).0 by {
        if written[i].0 == written[j].0 {
            assert(written.to_multiset().count(written[i]) > 0);
            assert(written.to_multiset().count(written[j]) > 0);
            assert(entries.contains(written[i]));
            assert(entries.contains(written[j]));
            unique_entry_is_found(entries, written[i].0, written[i].1);
            unique_entry_is_found(entries, written[j].0, written[j].1);
            assert(written[i] == written[j]);
            occurs_twice(written, i, j);
            occurs_once(entries, written[i]);
        }
    }
    unique_entries_are_spelled(written, written.len() as int);
    assert(written.take(written.len() as int) =~= written);
    match assigned_to(entries, value) {
        Some(register) => {
            unique_entry_is_found(entries, value, register);
            assert(entries.to_multiset().count((value, register)) > 0);
            assert(written.contains((value, register)));
            unique_entry_is_found(written, value, register);
        },
        None => {
            if let Some(register) = assigned_to(written, value) {
                unique_entry_is_found(written, value, register);
                assert(written.to_multiset().count((value, register)) > 0);
                assert(entries.contains((value, register)));
                unique_entry_is_found(entries, value, register);
            }
        },
    }
}

proof fn occurs_twice(list: Seq<(ValueId, (ClassView, u16))>, i: int, j: int)
    requires
        0 <= i < j < list.len(),
        list[i] == list[j],
    ensures
        list.to_multiset().count(list[i]) >= 2,
{
    broadcast use vstd::seq_lib::group_to_multiset_ensures;

    let less = list.remove(j);
    vstd::seq_lib::to_multiset_remove(list, j);
    assert(less[i] == list[i]);
    assert(less.contains(list[i]));
    assert(less.to_multiset().count(list[i]) > 0);
    assert(list.contains(list[j]));
    assert(list.to_multiset().count(list[j]) > 0);
}

proof fn occurs_once(list: Seq<(ValueId, (ClassView, u16))>, e: (ValueId, (ClassView, u16)))
    requires
        unique_values(list),
    ensures
        list.to_multiset().count(e) <= 1,
{
    broadcast use vstd::seq_lib::group_to_multiset_ensures;

    if list.to_multiset().count(e) >= 2 {
        assert(list.contains(e));
        let i = choose|i: int| 0 <= i < list.len() && list[i] == e;
        let less = list.remove(i);
        vstd::seq_lib::to_multiset_remove(list, i);
        assert(less.to_multiset().count(e) > 0);
        assert(less.contains(e));
        let k = choose|k: int| 0 <= k < less.len() && less[k] == e;
        if k < i {
            assert(list[k] == e);
        } else {
            assert(list[k + 1] == e);
        }
    }
}

spec fn entry_of(e: (ValueId, PhysReg)) -> (ValueId, (ClassView, u16)) {
    (e.0, (e.1.0@, e.1.1))
}

spec fn entries_of(list: Seq<(ValueId, PhysReg)>) -> Seq<(ValueId, (ClassView, u16))> {
    list.map_values(|e: (ValueId, PhysReg)| entry_of(e))
}

impl View for RegAssignment {
    type V = Seq<(ValueId, (ClassView, u16))>;

    closed spec fn view(&self) -> Seq<(ValueId, (ClassView, u16))> {
        entries_of(self.entries@)
    }
}

/// The entries an attribute list spells, of its first `n`: each later one takes
/// the place of an earlier one for the same value.
pub open spec fn spelled_entries(items: Seq<AttrView>, n: int) -> Seq<(ValueId, (ClassView, u16))>
    decreases n,
{
    if n <= 0 {
        Seq::empty()
    } else {
        let before = spelled_entries(items, n - 1);
        match items[n - 1] {
            AttrView::Assigned(value, class, index) => with_assigned(
                before,
                value,
                (class, index),
            ),
            _ => before,
        }
    }
}

/// The map an attribute spells.
pub open spec fn spelled_assignment(attribute: Option<AttrView>) -> Seq<
    (ValueId, (ClassView, u16)),
> {
    match attribute {
        Some(AttrView::Array(items)) => spelled_entries(items, items.len() as int),
        _ => Seq::empty(),
    }
}

/// Whether entries are ordered by value.
pub open spec fn by_value(entries: Seq<(ValueId, (ClassView, u16))>) -> bool {
    forall|i: int, j: int|
        0 <= i < j < entries.len() ==> (#[trigger] entries[i]).0.0 <= (#[trigger] entries[j]).0.0
}

/// The attribute form of entries.
pub open spec fn entry_items(entries: Seq<(ValueId, (ClassView, u16))>) -> Seq<AttrView> {
    entries.map_values(
        |e: (ValueId, (ClassView, u16))| AttrView::Assigned(e.0, e.1.0, e.1.1),
    )
}

impl RegAssignment {
    /// An assignment that says nothing.
    pub fn new() -> (r: Self)
        ensures
            r@ == Seq::<(ValueId, (ClassView, u16))>::empty(),
    {
        let r = RegAssignment { entries: Vec::new() };
        assert(r@ =~= Seq::empty());
        r
    }

    /// The register `value` was given.
    pub fn get(&self, value: ValueId) -> (r: Option<PhysReg>)
        ensures
            found_register(r, assigned_to(self@, value)),
    {
        let ghost all = self@;
        assert(all.skip(0) =~= all);
        let mut i: usize = 0;
        while i < self.entries.len()
            invariant
                i <= self.entries.len(),
                all == self@,
                all.len() == self.entries.len(),
                assigned_to(all, value) == assigned_to(all.skip(i as int), value),
            decreases self.entries.len() - i,
        {
            assert(all.skip(i as int)[0] == entry_of(self.entries@[i as int]));
            assert(all.skip(i as int).skip(1) =~= all.skip(i + 1));
            if self.entries[i].0 == value {
                return Some(self.entries[i].1);
            }
            i += 1;
        }
        assert(all.skip(i as int).len() == 0);
        None
    }

    /// Gives `value` a register.
    pub fn insert(&mut self, value: ValueId, register: PhysReg)
        ensures
            final(self)@ == with_assigned(old(self)@, value, (register.0@, register.1)),
    {
        let ghost all = self@;
        let ghost given = (register.0@, register.1);
        assert(all.skip(0) =~= all);
        assert(all.take(0) + with_assigned(all, value, given) =~= with_assigned(all, value, given));
        let mut i: usize = 0;
        while i < self.entries.len()
            invariant
                i <= self.entries.len(),
                *self == *old(self),
                all == self@,
                all.len() == self.entries.len(),
                given == (register.0@, register.1),
                with_assigned(all, value, given) == all.take(i as int) + with_assigned(
                    all.skip(i as int),
                    value,
                    given,
                ),
            decreases self.entries.len() - i,
        {
            let ghost rest = all.skip(i as int);
            assert(rest[0] == entry_of(self.entries@[i as int]));
            assert(rest.skip(1) =~= all.skip(i + 1));
            if self.entries[i].0 == value {
                self.entries.set(i, (value, register));
                assert(self@ =~= all.take(i as int) + (seq![(value, given)] + all.skip(i + 1)));
                return;
            }
            assert(all.take(i as int) + (seq![rest[0]] + with_assigned(
                rest.skip(1),
                value,
                given,
            )) =~= all.take(i + 1) + with_assigned(all.skip(i + 1), value, given));
            i += 1;
        }
        self.entries.push((value, register));
        assert(self@ =~= all.take(i as int) + seq![(value, given)]);
    }

    /// Whether nothing is assigned.
    pub fn is_empty(&self) -> (r: bool)
        ensures
            r == (self@.len() == 0),
    {
        self.entries.len() == 0
    }

    /// How many values are assigned.
    pub fn len(&self) -> (n: usize)
        ensures
            n == self@.len(),
    {
        self.entries.len()
    }

    /// The entry at `index`.
    pub fn at(&self, index: usize) -> (e: (ValueId, PhysReg))
        requires
            index < self@.len(),
        ensures
            self@[index as int] == (e.0, (e.1.0@, e.1.1)),
    {
        self.entries[index]
    }

    /// The map `op` carries under `attr`, empty when it carries none.
    pub fn of_op(context: &Context, op: OpId, attr: &str) -> (r: Self)
        requires
            context.inv(),
        ensures
            r@ == spelled_assignment(context@.attr(op, attr@)),
    {
        let mut r = RegAssignment::new();
        if let Some(AttributeValue::Array(items)) = context.with_attr(op, attr) {
            let ghost views = attr_view(AttributeValue::Array(*items))->Array_0;
            let mut i: usize = 0;
            while i < items.len()
                invariant
                    i <= items.len(),
                    views == attr_view(AttributeValue::Array(*items))->Array_0,
                    views.len() == items.len(),
                    r@ == spelled_entries(views, i as int),
                decreases items.len() - i,
            {
                assert(views[i as int] == attr_view(items@[i as int]));
                if let AttributeValue::Register(register) = &items[i] {
                    if let RegisterAttr::Assigned { value, class, index } = register {
                        r.insert(*value, (*class, *index));
                    }
                }
                i += 1;
            }
        }
        r
    }

    /// The entries ordered by value.
    fn sorted(&self) -> (r: Vec<(ValueId, PhysReg)>)
        ensures
            by_value(entries_of(r@)),
            entries_of(r@).to_multiset() == self@.to_multiset(),
    {
        broadcast use vstd::seq_lib::group_to_multiset_ensures;

        let mut r: Vec<(ValueId, PhysReg)> = Vec::new();
        let ghost all = self@;
        let mut i: usize = 0;
        assert(entries_of(r@) =~= all.take(0));
        while i < self.entries.len()
            invariant
                i <= self.entries.len(),
                all == self@,
                all.len() == self.entries.len(),
                r.len() == i,
                by_value(entries_of(r@)),
                entries_of(r@).to_multiset() == all.take(
                    i as int,
                ).to_multiset(),
            decreases self.entries.len() - i,
        {
            let e = self.entries[i];
            let ghost before = entries_of(r@);
            let mut at: usize = r.len();
            while at > 0 && r[at - 1].0.0 > e.0.0
                invariant
                    at <= r.len(),
                    before == entries_of(r@),
                    by_value(before),
                    forall|j: int| at <= j < before.len() ==> (#[trigger] before[j]).0.0 > e.0.0,
                decreases at,
            {
                assert(before[at - 1] == entry_of(r@[at - 1]));
                at -= 1;
            }
            proof {
                if at > 0 {
                    assert(before[at - 1] == entry_of(r@[at - 1]));
                }
            }
            r.insert(at, e);
            proof {
                let after = entries_of(r@);
                assert(after =~= before.insert(at as int, entry_of(e)));
                assert(all.take(i + 1) =~= all.take(i as int).push(entry_of(e)));
                vstd::seq_lib::to_multiset_insert(before, at as int, entry_of(e));
                vstd::seq_lib::to_multiset_build(all.take(i as int), entry_of(e));
                assert(after.to_multiset() == all.take(i + 1).to_multiset());
                assert forall|x: int, y: int| 0 <= x < y < after.len() implies (
                #[trigger] after[x]).0.0 <= (#[trigger] after[y]).0.0 by {
                    let px = if x < at {
                        x
                    } else {
                        x - 1
                    };
                    let py = if y < at {
                        y
                    } else {
                        y - 1
                    };
                    if x < at {
                        assert(before[x].0.0 <= before[at - 1].0.0 || x == at - 1);
                    }
                    if x == at {
                        assert(after[y] == before[y - 1]);
                    } else if y == at {
                        assert(after[x] == before[x]);
                    } else {
                        assert(after[x] == before[px]);
                        assert(after[y] == before[py]);
                    }
                }
            }
            i += 1;
        }
        assert(all.take(i as int) =~= all);
        r
    }

    /// The attribute form, ordered by value so emission is deterministic.
    pub fn to_attribute(&self) -> (r: AttributeValue)
        ensures
            exists|entries: Seq<(ValueId, (ClassView, u16))>| #[trigger]
                by_value(entries) && entries.to_multiset() == self@.to_multiset() && r@
                    == AttrView::Array(entry_items(entries)),
    {
        let sorted = self.sorted();
        let ghost entries = entries_of(sorted@);
        let mut items: Vec<AttributeValue> = Vec::new();
        let mut i: usize = 0;
        while i < sorted.len()
            invariant
                i <= sorted.len(),
                entries == entries_of(sorted@),
                items.len() == i,
                forall|j: int|
                    0 <= j < i ==> attr_view(#[trigger] items@[j]) == AttrView::Assigned(
                        entries[j].0,
                        entries[j].1.0,
                        entries[j].1.1,
                    ),
            decreases sorted.len() - i,
        {
            let (value, (class, index)) = sorted[i];
            assert(entries[i as int] == entry_of(sorted@[i as int]));
            items.push(AttributeValue::Register(RegisterAttr::Assigned { value, class, index }));
            i += 1;
        }
        let r = AttributeValue::Array(items);
        assert(attr_view(r)->Array_0 =~= entry_items(entries));
        assert(by_value(entries));
        r
    }
}

/// The physical register a slot names, directly or through the assignment.
pub fn slot_register(slot: RegSlot, assignment: &RegAssignment) -> (r: Option<PhysReg>)
    ensures
        found_register(
            r,
            match slot@ {
                SlotKind::Phys(class, index) => Some((class, index)),
                SlotKind::Value(value) => assigned_to(assignment@, value),
            },
        ),
{
    match slot {
        RegSlot::Phys(register) => Some(register),
        RegSlot::Value(value) => assignment.get(value),
    }
}

/// What the first entry of `items` for `value` says.
pub open spec fn entry_for(items: Seq<AttrView>, value: ValueId) -> Option<(ClassView, u16)>
    decreases items.len(),
{
    if items.len() == 0 {
        None
    } else {
        match items[0] {
            AttrView::Assigned(v, class, index) => if v == value {
                Some((class, index))
            } else {
                entry_for(items.skip(1), value)
            },
            _ => entry_for(items.skip(1), value),
        }
    }
}

/// What the innermost of `op` and the operations enclosing it that carries an
/// assignment says of `value`; `limit` is more operations than there are.
pub open spec fn assigned_within(
    context: ContextView,
    op: Option<OpId>,
    value: ValueId,
    limit: nat,
) -> Option<(ClassView, u16)>
    decreases limit,
{
    match op {
        Some(symbol) => if limit == 0 {
            None
        } else {
            match context.attr(symbol, "assignment"@) {
                Some(AttrView::Array(items)) => entry_for(items, value),
                Some(_) => None,
                None => assigned_within(
                    context,
                    enclosing(context.ir, symbol),
                    value,
                    (limit - 1) as nat,
                ),
            }
        },
        None => None,
    }
}

fn entry_in(items: &Vec<AttributeValue>, value: ValueId) -> (r: Option<PhysReg>)
    ensures
        found_register(r, entry_for(attr_views(items@), value)),
{
    let ghost all = attr_views(items@);
    assert(all.skip(0) =~= all);
    let mut i: usize = 0;
    while i < items.len()
        invariant
            i <= items.len(),
            all == attr_views(items@),
            entry_for(all, value) == entry_for(all.skip(i as int), value),
        decreases items.len() - i,
    {
        assert(all.skip(i as int)[0] == attr_view(items@[i as int]));
        assert(all.skip(i as int).skip(1) =~= all.skip(i + 1));
        if let AttributeValue::Register(register) = &items[i] {
            if let RegisterAttr::Assigned { value: v, class, index } = register {
                if *v == value {
                    return Some((*class, *index));
                }
            }
        }
        i += 1;
    }
    assert(all.skip(i as int).len() == 0);
    None
}

/// The register allocation gave `value` in the function `op` belongs to.
pub fn assigned_register(context: &Context, op: OpId, value: ValueId) -> (r: Option<PhysReg>)
    requires
        context.inv(),
    ensures
        found_register(
            r,
            assigned_within(
                context@,
                enclosing(context@.ir, op),
                value,
                context@.ir.ops.now.len(),
            ),
        ),
{
    let n: usize = context.op_count();
    let mut current = context.parent_op(op);
    let ghost want = assigned_within(context@, current, value, n as nat);
    let mut left: usize = n;
    while left > 0
        invariant
            context.inv(),
            left <= n,
            want == assigned_within(context@, current, value, left as nat),
            want == assigned_within(
                context@,
                enclosing(context@.ir, op),
                value,
                context@.ir.ops.now.len(),
            ),
        decreases left,
    {
        let symbol = match current {
            Some(symbol) => symbol,
            None => {
                return None;
            },
        };
        match context.with_attr(symbol, "assignment") {
            Some(AttributeValue::Array(items)) => {
                assert(attr_views(items@) =~= attr_view(AttributeValue::Array(*items))->Array_0);
                return entry_in(items, value);
            },
            Some(_) => {
                return None;
            },
            None => {},
        }
        current = context.parent_op(symbol);
        left -= 1;
    }
    None
}

/// The physical register the slot named `name` of `op` ends up in: the register
/// it names directly, or the one allocation gave the value it holds.
///
/// For a caller holding one instruction rather than a whole function.
pub fn op_slot_register(context: &Context, machine: &Machine, op: OpId, name: &str) -> (r: Option<
    PhysReg,
>)
    requires
        context.inv(),
        context@.readable(op),
    ensures
        found_register(
            r,
            match slot_named(slots_of(context@, *machine, op), name@) {
                Some(SlotKind::Phys(class, index)) => Some((class, index)),
                Some(SlotKind::Value(value)) => assigned_within(
                    context@,
                    enclosing(context@.ir, op),
                    value,
                    context@.ir.ops.now.len(),
                ),
                None => None,
            },
        ),
{
    match reg_slot(context, machine, op, name) {
        Some(RegSlot::Phys(register)) => Some(register),
        Some(RegSlot::Value(value)) => assigned_register(context, op, value),
        None => None,
    }
}

} // verus!

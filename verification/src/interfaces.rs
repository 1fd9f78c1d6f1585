//! What an operation can promise beside its name: the interfaces passes and
//! checks ask for, and the data they exchange.
use vstd::prelude::*;
use crate::context::Context;
use crate::context::ContextView;
use crate::ids::BlockId;
use crate::ids::RegionId;
use crate::ids::TypeId;
use crate::ids::ValueId;

verus! {

/// A promise an operation's kind makes.
#[derive(Debug, Clone, Copy, PartialEq, Eq, Structural)]
pub enum Interface {
    Symbol,
    OpCost,
    ConstantLike,
    Pure,
    Commutative,
    IntegerArithmetic,
    RegionExit,
    Terminator,
    BranchTerminator,
    CountedLoop,
    BranchGuard,
    SameOperandAndResultType,
    PromotableAllocation,
    MemoryRead,
    MemoryWrite,
    MemoryState,
    Gamma,
    Theta,
    Callable,
    Apply,
    Global,
    Speculatable,
    NonLocalExit,
    ExitScope,
    TokenScope,
    Interp,
    MachineInstruction,
    /// A machine instruction that may change memory.
    MachineWrite,
}

/// Whether a symbol can be named from outside the table that holds it.
#[derive(Debug, Clone, Copy, PartialEq, Eq, Structural)]
pub enum Visibility {
    Public,
    Private,
}

/// The positions from `start` up to and without `end`.
#[derive(Debug, Clone, Copy, PartialEq, Eq, Structural)]
pub struct IndexRange {
    pub start: usize,
    pub end: usize,
}

impl IndexRange {
    /// How many positions the range has.
    pub open spec fn count(self) -> nat {
        if self.start <= self.end {
            (self.end - self.start) as nat
        } else {
            0
        }
    }

    pub fn new(start: usize, end: usize) -> (r: Self)
        ensures
            r == (IndexRange { start, end }),
    {
        IndexRange { start, end }
    }

    /// How many positions the range has.
    pub fn len(&self) -> (n: usize)
        ensures
            n == self.count(),
    {
        if self.start <= self.end {
            self.end - self.start
        } else {
            0
        }
    }
}

/// Where one carried value sits on each side of a structured op: index ranges
/// into the op's operands, the region's ports, the region's results (the values
/// the next iteration takes, then the values the op produces when it stops) and
/// the op's results. The ranges have one length and the values at one offset
/// share a type, which is what an op's declaration states and its verifier
/// checks.
///
/// A gamma has no next iteration, so its `continue_` range is empty; its
/// `ports` and `exit` ranges apply to every arm alike.
#[derive(Debug, Clone, Copy, PartialEq, Eq, Structural)]
pub struct Binding {
    pub operands: IndexRange,
    pub ports: IndexRange,
    pub continue_: IndexRange,
    pub exit: IndexRange,
    pub results: IndexRange,
}

/// What a non-local exit leaves: the loop or switch nearest around it, or the
/// enclosing scope carrying `label`.
#[derive(Debug)]
pub enum ExitTarget {
    InnermostLoop,
    InnermostSwitch,
    Label(String),
}

/// What an [`ExitTarget`] names.
pub ghost enum ExitTargetView {
    InnermostLoop,
    InnermostSwitch,
    Label(Seq<char>),
}

impl View for ExitTarget {
    type V = ExitTargetView;

    open spec fn view(&self) -> ExitTargetView {
        match self {
            ExitTarget::InnermostLoop => ExitTargetView::InnermostLoop,
            ExitTarget::InnermostSwitch => ExitTargetView::InnermostSwitch,
            ExitTarget::Label(label) => ExitTargetView::Label(label@),
        }
    }
}

/// Which kind of structured op a `break` or `continue` may leave.
#[derive(Debug, Clone, Copy, PartialEq, Eq, Structural)]
pub enum ExitScopeKind {
    Loop,
    Switch,
}

/// An operation that ends a block. The successors of one that leaves the region
/// are none.
pub trait Terminator {
    /// Whether the operation says where it leads.
    spec fn terminates(&self, context: ContextView) -> bool;

    /// The blocks control may pass to.
    spec fn successor_blocks(&self, context: ContextView) -> Seq<BlockId>;

    fn is_terminator(&self) -> (r: bool)
        default_ensures
            r,
    {
        true
    }

    /// The blocks control may pass to.
    fn successors(&self, context: &Context) -> (r: Vec<BlockId>)
        requires
            context.inv(),
            self.terminates(context@),
        ensures
            r@ == self.successor_blocks(context@),
    ;
}

/// An operation that defines a named entity in the enclosing module's symbol
/// table. Functions are overloadable and key on their argument types; data
/// symbols carry no signature and own their name outright.
pub trait Symbol {
    /// Whether the operation names a symbol.
    spec fn defines(&self, context: ContextView) -> bool;

    spec fn name_of(&self, context: ContextView) -> Seq<char>;

    spec fn signature(&self, context: ContextView) -> Option<Seq<TypeId>>;

    spec fn result_type(&self, context: ContextView) -> Option<TypeId>;

    spec fn visibility(&self, context: ContextView) -> Visibility;

    spec fn defined_here(&self, context: ContextView) -> bool;

    fn symbol_name(&self, context: &Context) -> (s: String)
        requires
            context.inv(),
            self.defines(context@),
        ensures
            s@ == self.name_of(context@),
    ;

    /// `None` for a symbol that cannot be overloaded (a global, a struct
    /// definition); `Some(argument types)` for one that keys on a signature.
    fn symbol_signature(&self, context: &Context) -> (r: Option<Vec<TypeId>>)
        requires
            context.inv(),
            self.defines(context@),
        ensures
            match r {
                Some(types) => self.signature(context@) == Some(types@),
                None => self.signature(context@) is None,
            },
    ;

    /// The type a call to this symbol produces; `None` for a symbol that is not
    /// callable.
    fn symbol_result_type(&self, context: &Context) -> (r: Option<TypeId>)
        requires
            context.inv(),
            self.defines(context@),
        ensures
            r == self.result_type(context@),
    ;

    fn symbol_visibility(&self, context: &Context) -> (r: Visibility)
        requires
            context.inv(),
            self.defines(context@),
        ensures
            r == self.visibility(context@),
    ;

    /// Whether the symbol has a body here rather than naming an external
    /// definition.
    fn is_definition(&self, context: &Context) -> (r: bool)
        requires
            context.inv(),
            self.defines(context@),
        ensures
            r == self.defined_here(context@),
    ;
}

/// Relative execution cost of an operation, consulted by cost-driven rewriters
/// to choose among equivalent forms. One cheap instruction costs one.
pub trait OpCost {
    fn cost(&self) -> (n: u32)
        default_ensures
            n == 1,
    {
        1
    }
}

/// An operation that yields a compile-time constant integer, exposed so
/// rewriters can read the value without knowing the concrete constant op.
pub trait ConstantLike {
    /// Whether the operation holds a constant.
    spec fn names_constant(&self, context: ContextView) -> bool;

    spec fn constant(&self, context: ContextView) -> (i64, u32);

    /// The constant and its width in bits.
    fn constant_value(&self, context: &Context) -> (r: (i64, u32))
        requires
            context.inv(),
            self.names_constant(context@),
        ensures
            r == self.constant(context@),
    ;
}

/// An operation that produces its results and does nothing else: no memory
/// effect, no control flow, no machine state. Dead code elimination may erase
/// one whose results go unread, whether or not it declares semantics.
pub trait Pure {

}

/// An operation whose operands may be exchanged.
pub trait Commutative {
    fn is_commutative(&self) -> (r: bool)
        default_ensures
            r,
    {
        true
    }
}

/// An arithmetic operation over integer values.
pub trait IntegerArithmetic {

}

/// An operation of an ordered region that binds the region's results: the
/// values it carries are what the region produces when control leaves through
/// it. An unordered region names those values outright instead.
pub trait RegionExit {
    spec fn leaves(&self, context: ContextView) -> bool;

    spec fn carried_out(&self, context: ContextView) -> Seq<ValueId>;

    fn exit_values(&self, context: &Context) -> (r: Vec<ValueId>)
        requires
            context.inv(),
            self.leaves(context@),
        ensures
            r@ == self.carried_out(context@),
    ;
}

/// An edge control may take, and what it hands the block it enters.
pub type Edge = (BlockId, Seq<ValueId>);

/// The edges as they are handed out.
pub open spec fn edges_of(list: Seq<(BlockId, Vec<ValueId>)>) -> Seq<Edge> {
    list.map_values(|e: (BlockId, Vec<ValueId>)| (e.0, e.1@))
}

/// A terminator that transfers control to successor blocks within the same
/// region, forwarding values to their block arguments. Lets a CFG analysis read
/// the edge targets and the values flowing along each edge without knowing the
/// concrete branch op.
pub trait BranchTerminator {
    spec fn branches(&self, context: ContextView) -> bool;

    spec fn edges(&self, context: ContextView) -> Seq<Edge>;

    /// One entry per outgoing control-flow edge: the successor block and the
    /// values forwarded to its block arguments, in argument order.
    fn successor_operands(&self, context: &Context) -> (r: Vec<(BlockId, Vec<ValueId>)>)
        requires
            context.inv(),
            self.branches(context@),
        ensures
            edges_of(r@) == self.edges(context@),
    ;
}

/// A loop whose iterations are counted: a counter starts at the lower bound,
/// gains the step once per iteration, and the loop runs while the counter is
/// signed-less-than the upper bound. That states the whole recurrence, so a
/// consumer can reason about the counter without knowing the concrete loop op.
pub trait CountedLoop {
    spec fn counts(&self, context: ContextView) -> bool;

    spec fn lower(&self, context: ContextView) -> ValueId;

    spec fn upper(&self, context: ContextView) -> ValueId;

    spec fn gain(&self, context: ContextView) -> ValueId;

    spec fn counter_port(&self, context: ContextView) -> Option<usize>;

    /// The counter's value on the first iteration.
    fn lower_bound(&self, context: &Context) -> (v: ValueId)
        requires
            context.inv(),
            self.counts(context@),
        ensures
            v == self.lower(context@),
    ;

    /// The bound the counter is compared against before each iteration.
    fn upper_bound(&self, context: &Context) -> (v: ValueId)
        requires
            context.inv(),
            self.counts(context@),
        ensures
            v == self.upper(context@),
    ;

    /// What the counter gains each iteration.
    fn step(&self, context: &Context) -> (v: ValueId)
        requires
            context.inv(),
            self.counts(context@),
        ensures
            v == self.gain(context@),
    ;

    /// The body port carrying the counter, for a loop whose counter is a value
    /// of the IR; `None` where the counter exists only as the recurrence.
    fn induction(&self, context: &Context) -> (r: Option<usize>)
        requires
            context.inv(),
            self.counts(context@),
        ensures
            r == self.counter_port(context@),
    ;
}

/// A [`BranchTerminator`] whose successor edges run under a known boolean fact:
/// `cond_br %c` enters its true successor when `%c` is 1 and its false successor
/// when `%c` is 0.
pub trait BranchGuard {
    spec fn guards(&self, context: ContextView) -> bool;

    spec fn guarded(&self, context: ContextView) -> Seq<(BlockId, ValueId, bool)>;

    /// For each guarded successor edge, the value known to equal a boolean when
    /// that edge is taken (`true` => 1, `false` => 0).
    fn guarded_successors(&self, context: &Context) -> (r: Vec<(BlockId, ValueId, bool)>)
        requires
            context.inv(),
            self.guards(context@),
        ensures
            r@ == self.guarded(context@),
    ;
}

/// An operation whose value operands and results all carry one type. The
/// dependency partitions are exempt: they describe ordering, not the value
/// being computed.
pub trait SameOperandAndResultType {

}

/// Identifies an operation that creates a memory location eligible for local SSA
/// promotion. Implementations describe the location generically rather than tying
/// the promoting transforms to a concrete pointer dialect.
pub trait PromotableAllocation {
    spec fn allocates(&self, context: ContextView) -> bool;

    spec fn location(&self, context: ContextView) -> ValueId;

    /// The SSA value that names the promotable memory location.
    fn promoted_location(&self, context: &Context) -> (v: ValueId)
        requires
            context.inv(),
            self.allocates(context@),
        ensures
            v == self.location(context@),
    ;
}

/// Identifies an operation that reads a value from a memory location.
pub trait MemoryRead {
    spec fn reads(&self, context: ContextView) -> bool;

    spec fn location_read(&self, context: ContextView) -> ValueId;

    spec fn value_read(&self, context: ContextView) -> ValueId;

    spec fn state_observed(&self, context: ContextView) -> Option<ValueId>;

    spec fn state_left(&self, context: ContextView) -> Option<ValueId>;

    /// The memory location being read.
    fn read_location(&self, context: &Context) -> (v: ValueId)
        requires
            context.inv(),
            self.reads(context@),
        ensures
            v == self.location_read(context@),
    ;

    /// The SSA value produced by the read.
    fn read_value(&self, context: &Context) -> (v: ValueId)
        requires
            context.inv(),
            self.reads(context@),
        ensures
            v == self.value_read(context@),
    ;

    /// The memory state the read observes, absent until state has been threaded.
    fn state_operand(&self, context: &Context) -> (r: Option<ValueId>)
        requires
            context.inv(),
            self.reads(context@),
        ensures
            r == self.state_observed(context@),
    ;

    /// The memory state the read leaves behind, absent until state has been
    /// threaded. A read leaves memory as it found it, but still names the state
    /// after it: a later write must be ordered after the read that observes the
    /// value it overwrites.
    fn state_result(&self, context: &Context) -> (r: Option<ValueId>)
        requires
            context.inv(),
            self.reads(context@),
        ensures
            r == self.state_left(context@),
    ;
}

/// Identifies an operation that writes a value to a memory location.
pub trait MemoryWrite {
    spec fn writes(&self, context: ContextView) -> bool;

    spec fn location_written(&self, context: ContextView) -> ValueId;

    spec fn value_stored(&self, context: ContextView) -> ValueId;

    spec fn state_before(&self, context: ContextView) -> Option<ValueId>;

    spec fn state_after(&self, context: ContextView) -> Option<ValueId>;

    /// The memory location being written.
    fn write_location(&self, context: &Context) -> (v: ValueId)
        requires
            context.inv(),
            self.writes(context@),
        ensures
            v == self.location_written(context@),
    ;

    /// The SSA value stored into the memory location.
    fn written_value(&self, context: &Context) -> (v: ValueId)
        requires
            context.inv(),
            self.writes(context@),
        ensures
            v == self.value_stored(context@),
    ;

    /// The memory state the write observes, absent until state has been threaded.
    fn state_operand(&self, context: &Context) -> (r: Option<ValueId>)
        requires
            context.inv(),
            self.writes(context@),
        ensures
            r == self.state_before(context@),
    ;

    /// The memory state the write produces, absent until state has been threaded.
    fn state_result(&self, context: &Context) -> (r: Option<ValueId>)
        requires
            context.inv(),
            self.writes(context@),
        ensures
            r == self.state_after(context@),
    ;
}

/// A structured conditional over unordered arms (γ): the predicate picks the
/// arm, every arm reads the forwarded operands through its own ports, and the
/// chosen arm's results become the op's.
pub trait Gamma {
    spec fn selects(&self, context: ContextView) -> bool;

    spec fn choice(&self, context: ContextView) -> ValueId;

    spec fn arm_regions(&self, context: ContextView) -> Seq<RegionId>;

    spec fn handed(&self, context: ContextView) -> Binding;

    fn predicate(&self, context: &Context) -> (v: ValueId)
        requires
            context.inv(),
            self.selects(context@),
        ensures
            v == self.choice(context@),
    ;

    fn arms(&self, context: &Context) -> (r: Vec<RegionId>)
        requires
            context.inv(),
            self.selects(context@),
        ensures
            r@ == self.arm_regions(context@),
    ;

    /// Operands to arm ports, and arm results to op results.
    fn forwarded(&self, context: &Context) -> (b: Binding)
        requires
            context.inv(),
            self.selects(context@),
        ensures
            b == self.handed(context@),
    ;
}

/// A structured loop over an unordered body (θ): the body reads the carried
/// values through its ports and produces a predicate, the values the next
/// iteration carries, and the values the op produces once the predicate is
/// false.
pub trait Theta {
    spec fn loops(&self, context: ContextView) -> bool;

    spec fn body_region(&self, context: ContextView) -> RegionId;

    spec fn carries(&self, context: ContextView) -> Binding;

    fn body(&self, context: &Context) -> (r: RegionId)
        requires
            context.inv(),
            self.loops(context@),
        ensures
            r == self.body_region(context@),
    ;

    fn carried(&self, context: &Context) -> (b: Binding)
        requires
            context.inv(),
            self.loops(context@),
        ensures
            b == self.carries(context@),
    ;

    /// The body result deciding whether another iteration runs.
    fn predicate(&self, context: &Context) -> (v: ValueId)
        requires
            context.inv(),
            self.loops(context@),
            self.decider(context@) is Some,
        ensures
            Some(v) == self.decider(context@),
    ;

    /// The body result that decides, where the body has it.
    spec fn decider(&self, context: ContextView) -> Option<ValueId>;
}

/// A λ node: a function definition or declaration, read through the value a
/// call takes as its callee.
pub trait Callable {
    spec fn calls(&self, context: ContextView) -> bool;

    spec fn code(&self, context: ContextView) -> Option<RegionId>;

    spec fn function(&self, context: ContextView) -> ValueId;

    spec fn takes(&self, context: ContextView) -> Seq<TypeId>;

    spec fn gives(&self, context: ContextView) -> TypeId;

    /// The body, absent for a declaration.
    fn body(&self, context: &Context) -> (r: Option<RegionId>)
        requires
            context.inv(),
            self.calls(context@),
        ensures
            r == self.code(context@),
    ;

    fn value(&self, context: &Context) -> (v: ValueId)
        requires
            context.inv(),
            self.calls(context@),
        ensures
            v == self.function(context@),
    ;

    fn params(&self, context: &Context) -> (r: Vec<TypeId>)
        requires
            context.inv(),
            self.calls(context@),
        ensures
            r@ == self.takes(context@),
    ;

    fn result(&self, context: &Context) -> (t: TypeId)
        requires
            context.inv(),
            self.calls(context@),
        ensures
            t == self.gives(context@),
    ;
}

/// An application of a callable to a run of the op's value operands.
pub trait Apply {
    spec fn applies(&self, context: ContextView) -> bool;

    spec fn applied(&self, context: ContextView) -> ValueId;

    spec fn arguments(&self, context: ContextView) -> IndexRange;

    fn callee(&self, context: &Context) -> (v: ValueId)
        requires
            context.inv(),
            self.applies(context@),
        ensures
            v == self.applied(context@),
    ;

    /// The indices of the arguments among the op's value operands.
    fn args(&self, context: &Context) -> (r: IndexRange)
        requires
            context.inv(),
            self.applies(context@),
        ensures
            r == self.arguments(context@),
    ;
}

/// A δ node: a data object with an address, and an initializer image when it
/// defines one here.
pub trait Global {
    spec fn holds_data(&self, context: ContextView) -> bool;

    spec fn storage(&self, context: ContextView) -> ValueId;

    spec fn image(&self, context: ContextView) -> Option<Seq<u8>>;

    fn address(&self, context: &Context) -> (v: ValueId)
        requires
            context.inv(),
            self.holds_data(context@),
        ensures
            v == self.storage(context@),
    ;

    fn initializer(&self, context: &Context) -> (r: Option<Vec<u8>>)
        requires
            context.inv(),
            self.holds_data(context@),
        ensures
            match r {
                Some(bytes) => self.image(context@) == Some(bytes@),
                None => self.image(context@) is None,
            },
    ;
}

/// An operation that cannot trap, so it may run whether or not control would
/// have reached it: a loop cone may hoist it, and a lowering may evaluate it on
/// a path the source did not take.
pub trait Speculatable {

}

/// An operation leaving an enclosing structured op from inside its subtree
/// (a `break` or `continue`), naming the target by kind or label rather than by
/// a token value, and carrying the values the target's ports take.
pub trait NonLocalExit {
    spec fn exits(&self, context: ContextView) -> bool;

    spec fn carried_along(&self, context: ContextView) -> Seq<ValueId>;

    spec fn leaves(&self, context: ContextView) -> ExitTargetView;

    fn target(&self, context: &Context) -> (t: ExitTarget)
        requires
            context.inv(),
            self.exits(context@),
        ensures
            t@ == self.leaves(context@),
    ;

    fn values(&self, context: &Context) -> (r: Vec<ValueId>)
        requires
            context.inv(),
            self.exits(context@),
        ensures
            r@ == self.carried_along(context@),
    ;
}

/// An operation a [`NonLocalExit`] can target: what kind of scope it is, and
/// the label it carries, if any.
pub trait ExitScope {
    spec fn scope_kind(&self) -> ExitScopeKind;

    fn exit_scope(&self) -> (k: ExitScopeKind)
        ensures
            k == self.scope_kind(),
    ;

    fn label(&self) -> (r: Option<String>)
        default_ensures
            r is None,
    {
        None
    }
}

} // verus!

//! Ids of the entities a context holds. An id is minted once and never moves.
use vstd::prelude::*;

verus! {

/// Names an operation.
#[derive(Clone, Copy, Debug, PartialEq, Eq, PartialOrd, Ord, Hash, Structural)]
pub struct OpId(pub u32);

/// Names a value.
#[derive(Clone, Copy, Debug, PartialEq, Eq, PartialOrd, Ord, Hash, Structural)]
pub struct ValueId(pub u32);

/// Names a basic block.
#[derive(Clone, Copy, Debug, PartialEq, Eq, PartialOrd, Ord, Hash, Structural)]
pub struct BlockId(pub u32);

/// Names a region.
#[derive(Clone, Copy, Debug, PartialEq, Eq, PartialOrd, Ord, Hash, Structural)]
pub struct RegionId(pub u32);

/// Names an interned type.
#[derive(Clone, Copy, Debug, PartialEq, Eq, PartialOrd, Ord, Hash, Structural)]
pub struct TypeId(pub u32);

/// A dense id for an operation's `(dialect, name)` pair, minted by the context
/// that owns the operation. Meaningless outside that context.
#[derive(Clone, Copy, Debug, PartialEq, Eq, Hash, Structural)]
pub struct OpNameId(pub u32);

/// The number of the memory state type: every context interns that type first.
pub const STATE_NUMBER: u32 = 0;

/// The id of the memory state type.
pub open spec fn state_type() -> TypeId {
    TypeId(STATE_NUMBER)
}

/// The def site of a value no operation defines.
pub const NO_OP: u32 = 0xffff_ffff;

impl Default for OpId {
    fn default() -> (id: Self)
        ensures
            id == OpId(NO_OP),
    {
        OpId(NO_OP)
    }
}

impl OpId {
    /// The def site of a value no operation defines: a block or region argument.
    pub fn invalid() -> (id: Self)
        ensures
            id == OpId(NO_OP),
    {
        OpId(NO_OP)
    }

    /// Raw integer id, for stable identification across a foreign boundary.
    pub fn number(self) -> (n: u32)
        ensures
            n == self.0,
    {
        self.0
    }

    /// The id with the raw integer `id`, the inverse of [`OpId::number`].
    pub fn from_number(id: u32) -> (r: Self)
        ensures
            r == OpId(id),
    {
        OpId(id)
    }
}

impl ValueId {
    /// Raw integer id: what the text spells after `%`.
    pub fn number(self) -> (n: u32)
        ensures
            n == self.0,
    {
        self.0
    }

    /// The id with the raw integer `id`.
    pub fn from_number(id: u32) -> (r: Self)
        ensures
            r == ValueId(id),
    {
        ValueId(id)
    }
}

impl BlockId {
    /// Raw integer id.
    pub fn number(&self) -> (n: u32)
        ensures
            n == self.0,
    {
        self.0
    }

    /// The id with the raw integer `n`.
    pub fn from_number(n: u32) -> (r: Self)
        ensures
            r == BlockId(n),
    {
        BlockId(n)
    }
}

impl RegionId {
    /// The id with the raw integer `id`, the inverse of [`RegionId::number`].
    pub fn from_number(id: u32) -> (r: Self)
        ensures
            r == RegionId(id),
    {
        RegionId(id)
    }

    /// Raw integer id.
    pub fn number(self) -> (n: u32)
        ensures
            n == self.0,
    {
        self.0
    }
}

impl TypeId {
    /// The id of the memory state type.
    pub fn state() -> (r: Self)
        ensures
            r == state_type(),
    {
        TypeId(STATE_NUMBER)
    }

    /// Raw integer id.
    pub fn number(self) -> (n: u32)
        ensures
            n == self.0,
    {
        self.0
    }
}

/// An id and its raw integer determine each other.
pub proof fn op_id_number_round_trips(id: OpId, n: u32)
    ensures
        OpId(id.0) == id,
        OpId(n).0 == n,
{
}

} // verus!

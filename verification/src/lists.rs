//! The id lists an operation is read through: short lists kept inline, as
//! almost every operation has a handful of operands and one region at most.
use vstd::prelude::*;
use crate::ids::RegionId;
use crate::ids::ValueId;

verus! {

/// A list of values, inline up to four of them.
#[verifier::external_body]
pub struct ValueIds {
    inner: smallvec::SmallVec<[ValueId; 4]>,
}

/// A list of regions, inline up to two of them.
#[verifier::external_body]
pub struct RegionIds {
    inner: smallvec::SmallVec<[RegionId; 2]>,
}

/// The values a list holds, in order.
pub uninterp spec fn value_ids_contents(ids: ValueIds) -> Seq<ValueId>;

/// The regions a list holds, in order.
pub uninterp spec fn region_ids_contents(ids: RegionIds) -> Seq<RegionId>;

impl View for ValueIds {
    type V = Seq<ValueId>;

    open spec fn view(&self) -> Seq<ValueId> {
        value_ids_contents(*self)
    }
}

impl View for RegionIds {
    type V = Seq<RegionId>;

    open spec fn view(&self) -> Seq<RegionId> {
        region_ids_contents(*self)
    }
}

/// `SmallVec::new`: a list that holds nothing.
#[verifier::external_body]
fn value_ids_new() -> (r: ValueIds)
    ensures
        value_ids_contents(r) == Seq::<ValueId>::empty(),
{
    ValueIds { inner: smallvec::SmallVec::new() }
}

/// `SmallVec::push`: the item goes after everything the list held. The call
/// needs room for one more item in the address space.
#[verifier::external_body]
fn value_ids_push(ids: &mut ValueIds, value: ValueId)
    requires
        value_ids_contents(*old(ids)).len() < 0x1000_0000,
    ensures
        value_ids_contents(*final(ids)) == value_ids_contents(*old(ids)).push(value),
{
    ids.inner.push(value)
}

/// `SmallVec::len`: how many items the list holds.
#[verifier::external_body]
fn value_ids_len(ids: &ValueIds) -> (n: usize)
    ensures
        n == value_ids_contents(*ids).len(),
{
    ids.inner.len()
}

/// `SmallVec`'s indexing through `as_slice`: the item at a position in range.
#[verifier::external_body]
fn value_ids_get(ids: &ValueIds, index: usize) -> (v: ValueId)
    requires
        index < value_ids_contents(*ids).len(),
    ensures
        v == value_ids_contents(*ids)[index as int],
{
    ids.inner.as_slice()[index]
}

/// `SmallVec::truncate`: the first `len` items stay, and all of them where
/// there are no more than that.
#[verifier::external_body]
fn value_ids_truncate(ids: &mut ValueIds, len: usize)
    ensures
        value_ids_contents(*final(ids)) == if len < value_ids_contents(*old(ids)).len() {
            value_ids_contents(*old(ids)).take(len as int)
        } else {
            value_ids_contents(*old(ids))
        },
{
    ids.inner.truncate(len)
}

/// `SmallVec::new`: a list that holds nothing.
#[verifier::external_body]
fn region_ids_new() -> (r: RegionIds)
    ensures
        region_ids_contents(r) == Seq::<RegionId>::empty(),
{
    RegionIds { inner: smallvec::SmallVec::new() }
}

/// `SmallVec::push`: the item goes after everything the list held. The call
/// needs room for one more item in the address space.
#[verifier::external_body]
fn region_ids_push(ids: &mut RegionIds, region: RegionId)
    requires
        region_ids_contents(*old(ids)).len() < 0x1000_0000,
    ensures
        region_ids_contents(*final(ids)) == region_ids_contents(*old(ids)).push(region),
{
    ids.inner.push(region)
}

/// `SmallVec::len`: how many items the list holds.
#[verifier::external_body]
fn region_ids_len(ids: &RegionIds) -> (n: usize)
    ensures
        n == region_ids_contents(*ids).len(),
{
    ids.inner.len()
}

/// `SmallVec`'s indexing through `as_slice`: the item at a position in range.
#[verifier::external_body]
fn region_ids_get(ids: &RegionIds, index: usize) -> (v: RegionId)
    requires
        index < region_ids_contents(*ids).len(),
    ensures
        v == region_ids_contents(*ids)[index as int],
{
    ids.inner.as_slice()[index]
}

/// The most items an id list is asked to hold: what a 32-bit address space
/// has room for, growing by doubling.
pub const MAX_IDS: usize = 0x1000_0000;

impl ValueIds {
    /// A list that holds nothing.
    pub fn new() -> (r: Self)
        ensures
            r@ == Seq::<ValueId>::empty(),
    {
        value_ids_new()
    }

    /// How many values the list holds.
    pub fn len(&self) -> (n: usize)
        ensures
            n == self@.len(),
    {
        value_ids_len(self)
    }

    /// Whether the list holds nothing.
    pub fn is_empty(&self) -> (r: bool)
        ensures
            r == (self@.len() == 0),
    {
        value_ids_len(self) == 0
    }

    /// The value at `index`.
    pub fn at(&self, index: usize) -> (v: ValueId)
        requires
            index < self@.len(),
        ensures
            v == self@[index as int],
    {
        value_ids_get(self, index)
    }

    /// Keeps the first `len` values.
    pub fn truncate(&mut self, len: usize)
        ensures
            final(self)@ == if len < old(self)@.len() {
                old(self)@.take(len as int)
            } else {
                old(self)@
            },
    {
        value_ids_truncate(self, len)
    }

    /// The list with the values of `values`, in order.
    pub fn from_slice(values: &[ValueId]) -> (r: Self)
        requires
            values@.len() <= MAX_IDS,
        ensures
            r@ == values@,
    {
        let mut r = value_ids_new();
        let mut i: usize = 0;
        while i < values.len()
            invariant
                i <= values.len(),
                values@.len() <= MAX_IDS,
                r@ == values@.take(i as int),
            decreases values.len() - i,
        {
            value_ids_push(&mut r, values[i]);
            assert(r@ =~= values@.take(i + 1));
            i += 1;
        }
        assert(values@.take(i as int) =~= values@);
        r
    }

    /// The values of the list, in order.
    pub fn to_vec(&self) -> (r: Vec<ValueId>)
        ensures
            r@ == self@,
    {
        let mut r: Vec<ValueId> = Vec::new();
        let n: usize = self.len();
        let mut i: usize = 0;
        while i < n
            invariant
                i <= n,
                n == self@.len(),
                r@ == self@.take(i as int),
            decreases n - i,
        {
            r.push(self.at(i));
            assert(r@ =~= self@.take(i + 1));
            i += 1;
        }
        assert(self@.take(i as int) =~= self@);
        r
    }
}

impl RegionIds {
    /// How many regions the list holds.
    pub fn len(&self) -> (n: usize)
        ensures
            n == self@.len(),
    {
        region_ids_len(self)
    }

    /// The region at `index`.
    pub fn at(&self, index: usize) -> (v: RegionId)
        requires
            index < self@.len(),
        ensures
            v == self@[index as int],
    {
        region_ids_get(self, index)
    }

    /// The list with the regions of `regions`, in order.
    pub fn from_slice(regions: &[RegionId]) -> (r: Self)
        requires
            regions@.len() <= MAX_IDS,
        ensures
            r@ == regions@,
    {
        let mut r = region_ids_new();
        let mut i: usize = 0;
        while i < regions.len()
            invariant
                i <= regions.len(),
                regions@.len() <= MAX_IDS,
                r@ == regions@.take(i as int),
            decreases regions.len() - i,
        {
            region_ids_push(&mut r, regions[i]);
            assert(r@ =~= regions@.take(i + 1));
            i += 1;
        }
        assert(regions@.take(i as int) =~= regions@);
        r
    }

    /// The regions of the list, in order.
    pub fn to_vec(&self) -> (r: Vec<RegionId>)
        ensures
            r@ == self@,
    {
        let mut r: Vec<RegionId> = Vec::new();
        let n: usize = self.len();
        let mut i: usize = 0;
        while i < n
            invariant
                i <= n,
                n == self@.len(),
                r@ == self@.take(i as int),
            decreases n - i,
        {
            r.push(self.at(i));
            assert(r@ =~= self@.take(i + 1));
            i += 1;
        }
        assert(self@.take(i as int) =~= self@);
        r
    }
}

} // verus!

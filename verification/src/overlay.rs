//! The overlay a context edits through: edits held apart from the committed
//! records, visible to every read, and taken over or dropped as a whole.
//!
//! Every edit is visible to the next read. A committed record is copied into
//! the overlay on its first edit and read from there afterwards; an erased
//! record is absent from every lookup. Ids are minted once and never move.
use vstd::prelude::*;

verus! {

/// The generation of an id no live record has.
pub const ERASED: u32 = 0xffff_ffff;

/// A record an overlay can hold.
pub trait Record: View + Sized {
    /// A copy that says the same.
    fn copy(&self) -> (r: Self)
        ensures
            r@ == self@,
    ;
}

/// What the overlay says of one id.
enum Edit<T> {
    /// Nothing: the committed record stands.
    Base,
    /// The record is gone.
    Gone,
    /// The record reads like this.
    Held(T),
}

/// Records by id: the committed ones and the edits over them.
pub struct Layered<T: Record> {
    base: Vec<Option<T>>,
    stamps: Vec<u32>,
    edits: Vec<Edit<T>>,
}

/// What a layered list of records says.
pub ghost struct LayerView<V> {
    /// The records as of the last commit.
    pub committed: Seq<Option<V>>,
    /// The records as they read now. An id past the committed ones was created
    /// in the overlay.
    pub now: Seq<Option<V>>,
    /// The ids the overlay created, copied or erased.
    pub touched: Set<int>,
    /// The epoch each committed id was created in.
    pub stamps: Seq<u32>,
}

impl<V> LayerView<V> {
    /// The record `id` names now.
    pub open spec fn at(self, id: u32) -> Option<V> {
        if id < self.now.len() {
            self.now[id as int]
        } else {
            None
        }
    }

    /// Whether `id` was created since the last commit.
    pub open spec fn pending(self, id: u32) -> bool {
        self.committed.len() <= id < self.now.len()
    }

    /// The epoch `id` was created in, or [`ERASED`] for an id no live record has.
    pub open spec fn generation(self, id: u32, epoch: u32) -> u32 {
        if self.at(id) is None {
            ERASED
        } else if self.pending(id) {
            epoch
        } else {
            self.stamps[id as int]
        }
    }

    pub open spec fn wf(self) -> bool {
        &&& self.committed.len() <= self.now.len() <= u32::MAX
        &&& self.stamps.len() == self.committed.len()
        &&& forall|i: int|
            #![trigger self.now[i]]
            #![trigger self.touched.contains(i)]
            0 <= i < self.now.len() && !self.touched.contains(i) ==> i < self.committed.len()
                && self.now[i] == self.committed[i]
        &&& forall|i: int| #[trigger] self.touched.contains(i) ==> 0 <= i < self.now.len()
    }

    /// The list with one more record.
    pub open spec fn added(self, v: V) -> Self {
        LayerView {
            now: self.now.push(Some(v)),
            touched: self.touched.insert(self.now.len() as int),
            ..self
        }
    }

    /// The list with the record of `id` reading `v`.
    pub open spec fn put(self, id: u32, v: V) -> Self {
        LayerView {
            now: self.now.update(id as int, Some(v)),
            touched: self.touched.insert(id as int),
            ..self
        }
    }

    /// The list with the record of `id` gone.
    pub open spec fn erased(self, id: u32) -> Self {
        if id < self.now.len() {
            LayerView {
                now: self.now.update(id as int, None),
                touched: self.touched.insert(id as int),
                ..self
            }
        } else {
            self
        }
    }

    /// The list with its edits taken over, ids created since the last commit
    /// stamped with `epoch`.
    pub open spec fn committed_at(self, epoch: u32) -> Self {
        LayerView {
            committed: self.now,
            now: self.now,
            touched: Set::empty(),
            stamps: Seq::new(
                self.now.len(),
                |i: int|
                    if i < self.stamps.len() {
                        self.stamps[i]
                    } else {
                        epoch
                    },
            ),
        }
    }

    /// The list with its edits dropped.
    pub open spec fn discarded(self) -> Self {
        LayerView { now: self.committed, touched: Set::empty(), ..self }
    }

    /// How many records the overlay created and still holds.
    pub open spec fn local_records(self) -> nat {
        self.held_between(self.committed.len() as int, self.now.len() as int)
    }

    /// How many committed records the overlay holds its own copy of.
    pub open spec fn shadow_records(self) -> nat {
        self.held_between(0, self.committed.len() as int)
    }

    /// How many of the ids `lo..hi` have a record the overlay holds.
    pub open spec fn held_between(self, lo: int, hi: int) -> nat
        decreases hi - lo,
    {
        if lo >= hi {
            0
        } else {
            self.held_between(lo, hi - 1) + if 0 <= hi - 1 < self.now.len()
                && self.touched.contains(hi - 1) && self.now[hi - 1] is Some {
                1nat
            } else {
                0nat
            }
        }
    }
}

/// Committing changes nothing a read can see.
pub proof fn commit_keeps_every_record<V>(layer: LayerView<V>, epoch: u32, id: u32)
    requires
        layer.wf(),
    ensures
        layer.committed_at(epoch).wf(),
        layer.committed_at(epoch).at(id) == layer.at(id),
        layer.committed_at(epoch).generation(id, (epoch + 1) as u32) == layer.generation(id, epoch),
        !layer.committed_at(epoch).pending(id),
{
}

/// Discarding brings back every committed record, whatever was edited.
pub proof fn discard_brings_back_the_base<V>(layer: LayerView<V>, id: u32, v: V)
    requires
        layer.wf(),
        id < layer.now.len(),
    ensures
        layer.discarded().wf(),
        layer.discarded().now == layer.committed,
        layer.put(id, v).discarded() == layer.discarded(),
        layer.erased(id).discarded() == layer.discarded(),
        layer.added(v).discarded() == layer.discarded(),
{
}

/// An edit of one record is visible to the next read of it, and to no read of
/// another.
pub proof fn edit_is_visible<V>(layer: LayerView<V>, id: u32, v: V, other: u32)
    requires
        layer.wf(),
        id < layer.now.len(),
    ensures
        layer.put(id, v).at(id) == Some(v),
        layer.erased(id).at(id) == None::<V>,
        other != id ==> layer.put(id, v).at(other) == layer.at(other),
        other != id ==> layer.erased(id).at(other) == layer.at(other),
        layer.put(id, v).committed == layer.committed,
        layer.erased(id).committed == layer.committed,
{
}

pub open spec fn optional_view<T: View>(entry: Option<T>) -> Option<T::V> {
    match entry {
        Some(v) => Some(v@),
        None => None,
    }
}

impl<T: Record> Layered<T> {
    spec fn held(&self, i: int) -> Option<T::V> {
        match self.edits[i] {
            Edit::Base => optional_view(self.base[i]),
            Edit::Gone => None,
            Edit::Held(v) => Some(v@),
        }
    }

    pub closed spec fn inv(&self) -> bool {
        &&& self.base.len() <= self.edits.len() <= u32::MAX
        &&& self.stamps.len() == self.base.len()
        &&& forall|i: int|
            self.base.len() <= i < self.edits.len() ==> !(#[trigger] self.edits[i] is Base)
    }

    /// What a list holds under an id is the view of a record.
    pub proof fn holds_views(&self, id: u32)
        requires
            self.inv(),
        ensures
            self@.at(id) is Some ==> exists|t: T| self@.at(id) == Some(#[trigger] t@),
    {
        if self@.at(id) is Some {
            match self.edits[id as int] {
                Edit::Base => {
                    let t = self.base[id as int]->0;
                    assert(self@.at(id) == Some(t@));
                },
                Edit::Gone => {},
                Edit::Held(t) => {
                    assert(self@.at(id) == Some(t@));
                },
            }
        }
    }

    /// An empty list.
    pub fn new() -> (r: Self)
        ensures
            r.inv(),
            r@.wf(),
            r@ == (LayerView::<T::V> {
                committed: Seq::empty(),
                now: Seq::empty(),
                touched: Set::empty(),
                stamps: Seq::empty(),
            }),
    {
        let r = Layered { base: Vec::new(), stamps: Vec::new(), edits: Vec::new() };
        assert(r@.now =~= Seq::empty());
        assert(r@.committed =~= Seq::empty());
        assert(r@.touched =~= Set::empty());
        assert(r@.stamps =~= Seq::empty());
        r
    }

    /// How many ids were ever minted.
    pub fn len(&self) -> (n: usize)
        requires
            self.inv(),
        ensures
            n == self@.now.len(),
    {
        self.edits.len()
    }

    /// The record `id` names.
    pub fn get(&self, id: u32) -> (r: Option<&T>)
        requires
            self.inv(),
        ensures
            r is Some <==> self@.at(id) is Some,
            r is Some ==> Some(r->0@) == self@.at(id),
    {
        let i: usize = id as usize;
        if i >= self.edits.len() {
            return None;
        }
        assert(self@.now[i as int] == self.held(i as int));
        match &self.edits[i] {
            Edit::Base => self.base[i].as_ref(),
            Edit::Gone => None,
            Edit::Held(v) => Some(v),
        }
    }

    /// Whether `id` names a record.
    pub fn has(&self, id: u32) -> (r: bool)
        requires
            self.inv(),
        ensures
            r == (self@.at(id) is Some),
    {
        self.get(id).is_some()
    }

    /// Whether `id` was created since the last commit.
    pub fn is_pending(&self, id: u32) -> (r: bool)
        requires
            self.inv(),
        ensures
            r == self@.pending(id),
    {
        self.base.len() <= id as usize && (id as usize) < self.edits.len()
    }

    /// Whether `id` was created before the last commit.
    pub fn is_committed(&self, id: u32) -> (r: bool)
        requires
            self.inv(),
        ensures
            r == (id < self@.committed.len()),
    {
        (id as usize) < self.base.len()
    }

    /// The epoch `id` was created in, or [`ERASED`] for an id no live record has.
    pub fn generation(&self, id: u32, epoch: u32) -> (r: u32)
        requires
            self.inv(),
        ensures
            r == self@.generation(id, epoch),
    {
        if !self.has(id) {
            ERASED
        } else if self.is_pending(id) {
            epoch
        } else {
            self.stamps[id as usize]
        }
    }

    /// Mints an id for `v`.
    pub fn add(&mut self, v: T) -> (id: u32)
        requires
            old(self).inv(),
            old(self)@.wf(),
            old(self)@.now.len() < u32::MAX,
        ensures
            final(self).inv(),
            final(self)@.wf(),
            id == old(self)@.now.len(),
            final(self)@ == old(self)@.added(v@),
    {
        let ghost before = *self;
        let ghost added = v@;
        let id: u32 = self.edits.len() as u32;
        self.edits.push(Edit::Held(v));
        proof {
            assert(self@.now =~= before@.now.push(Some(added)));
            assert(self@.touched =~= before@.touched.insert(id as int));
            assert(self@.committed =~= before@.committed);
        }
        id
    }

    /// Makes the record of `id` read `v`.
    pub fn put(&mut self, id: u32, v: T)
        requires
            old(self).inv(),
            old(self)@.wf(),
            id < old(self)@.now.len(),
        ensures
            final(self).inv(),
            final(self)@.wf(),
            final(self)@ == old(self)@.put(id, v@),
    {
        let ghost before = *self;
        let ghost put = v@;
        self.edits.set(id as usize, Edit::Held(v));
        proof {
            assert(self@.now =~= before@.now.update(id as int, Some(put)));
            assert(self@.touched =~= before@.touched.insert(id as int));
            assert(self@.committed =~= before@.committed);
        }
    }

    /// Takes the record of `id` out of the visible ones.
    pub fn erase(&mut self, id: u32)
        requires
            old(self).inv(),
            old(self)@.wf(),
        ensures
            final(self).inv(),
            final(self)@.wf(),
            final(self)@ == old(self)@.erased(id),
    {
        if (id as usize) < self.edits.len() {
            let ghost before = *self;
            self.edits.set(id as usize, Edit::Gone);
            proof {
                assert(self@.now =~= before@.now.update(id as int, None));
                assert(self@.touched =~= before@.touched.insert(id as int));
                assert(self@.committed =~= before@.committed);
            }
        }
    }

    /// Whether the overlay holds no edit.
    pub fn is_untouched(&self) -> (r: bool)
        requires
            self.inv(),
        ensures
            r == (self@.touched == Set::<int>::empty()),
    {
        let mut i: usize = 0;
        while i < self.edits.len()
            invariant
                i <= self.edits.len(),
                self.inv(),
                forall|j: int| 0 <= j < i ==> !#[trigger] self@.touched.contains(j),
            decreases self.edits.len() - i,
        {
            match &self.edits[i] {
                Edit::Base => {},
                _ => {
                    assert(self@.touched.contains(i as int));
                    return false;
                },
            }
            i += 1;
        }
        assert(self@.touched =~= Set::empty());
        true
    }

    /// Takes the edits over: nothing a read can see changes.
    pub fn commit(&mut self, epoch: u32)
        requires
            old(self).inv(),
            old(self)@.wf(),
        ensures
            final(self).inv(),
            final(self)@.wf(),
            final(self)@ == old(self)@.committed_at(epoch),
    {
        let ghost before = *self;
        let ghost n = self.edits.len();
        let mut merged: Vec<Option<T>> = Vec::new();
        let mut edits: Vec<Edit<T>> = Vec::new();
        let mut base: Vec<Option<T>> = Vec::new();
        std::mem::swap(&mut edits, &mut self.edits);
        std::mem::swap(&mut base, &mut self.base);
        let committed: usize = base.len();
        // Records leave the two lists from their ends, so the result is built
        // back to front.
        while edits.len() > 0
            invariant
                before.inv(),
                n == before.edits.len(),
                committed == before.base.len(),
                edits@ == before.edits@.take(edits.len() as int),
                edits.len() <= n,
                base@ == before.base@.take(base.len() as int),
                base.len() == if edits.len() < committed {
                    edits.len()
                } else {
                    committed
                },
                merged.len() == n - edits.len(),
                forall|j: int|
                    0 <= j < merged.len() ==> optional_view(#[trigger] merged[j]) == before.held(
                        n - 1 - j,
                    ),
                self.stamps == before.stamps,
            decreases edits.len(),
        {
            let ghost k = edits.len() - 1;
            let ghost shown = before.held(k);
            let edit = edits.pop().unwrap();
            assert(edit == before.edits[k]);
            let mut under: Option<T> = None;
            if edits.len() < committed {
                let ghost top = base@.last();
                under = base.pop().unwrap();
                assert(under == before.base[k]);
                assert(base@ =~= before.base@.take(k));
            }
            let record: Option<T> = match edit {
                Edit::Base => under,
                Edit::Gone => None,
                Edit::Held(v) => Some(v),
            };
            assert(optional_view(record) == shown);
            merged.push(record);
            assert(edits@ =~= before.edits@.take(k));
        }
        let mut fresh: Vec<Option<T>> = Vec::new();
        let mut blank: Vec<Edit<T>> = Vec::new();
        while merged.len() > 0
            invariant
                before.inv(),
                n == before.edits.len(),
                merged.len() <= n,
                fresh.len() == n - merged.len(),
                blank.len() == fresh.len(),
                forall|j: int|
                    0 <= j < merged.len() ==> optional_view(#[trigger] merged[j]) == before.held(
                        n - 1 - j,
                    ),
                forall|j: int|
                    0 <= j < fresh.len() ==> optional_view(#[trigger] fresh[j]) == before.held(j),
                forall|j: int| 0 <= j < blank.len() ==> #[trigger] blank[j] is Base,
                self.stamps == before.stamps,
            decreases merged.len(),
        {
            let ghost at = merged.len() - 1;
            let record = merged.pop().unwrap();
            assert(optional_view(record) == before.held(n - 1 - at));
            fresh.push(record);
            blank.push(Edit::Base);
        }
        self.base = fresh;
        self.edits = blank;
        while self.stamps.len() < self.base.len()
            invariant
                before.inv(),
                n == before.edits.len(),
                self.base.len() == n,
                self.edits.len() == n,
                before.stamps.len() <= self.stamps.len() <= n,
                forall|j: int| 0 <= j < n ==> optional_view(#[trigger] self.base[j]) == before.held(j),
                forall|j: int| 0 <= j < n ==> #[trigger] self.edits[j] is Base,
                forall|j: int|
                    0 <= j < self.stamps.len() ==> #[trigger] self.stamps[j] == if j
                        < before.stamps.len() {
                        before.stamps[j]
                    } else {
                        epoch
                    },
            decreases self.base.len() - self.stamps.len(),
        {
            self.stamps.push(epoch);
        }
        proof {
            let want = before@.committed_at(epoch);
            assert(self@.now =~= want.now);
            assert(self@.committed =~= want.committed);
            assert(self@.touched =~= want.touched);
            assert(self@.stamps =~= want.stamps);
        }
    }

    /// Drops the edits: every read answers what was committed.
    pub fn discard(&mut self)
        requires
            old(self).inv(),
            old(self)@.wf(),
        ensures
            final(self).inv(),
            final(self)@.wf(),
            final(self)@ == old(self)@.discarded(),
    {
        let ghost before = *self;
        let mut blank: Vec<Edit<T>> = Vec::new();
        while blank.len() < self.base.len()
            invariant
                *self == before,
                blank.len() <= self.base.len(),
                forall|j: int| 0 <= j < blank.len() ==> #[trigger] blank[j] is Base,
            decreases self.base.len() - blank.len(),
        {
            blank.push(Edit::Base);
        }
        self.edits = blank;
        proof {
            let want = before@.discarded();
            assert(self@.now =~= want.now);
            assert(self@.committed =~= want.committed);
            assert(self@.touched =~= want.touched);
        }
    }

    /// How many records the overlay created and still holds.
    pub fn local_count(&self) -> (n: usize)
        requires
            self.inv(),
        ensures
            n == self@.local_records(),
    {
        self.held_count(self.base.len(), self.edits.len())
    }

    /// How many committed records the overlay holds its own copy of.
    pub fn shadow_count(&self) -> (n: usize)
        requires
            self.inv(),
        ensures
            n == self@.shadow_records(),
    {
        self.held_count(0, self.base.len())
    }

    fn held_count(&self, lo: usize, hi: usize) -> (n: usize)
        requires
            self.inv(),
            lo <= hi <= self.edits.len(),
        ensures
            n == self@.held_between(lo as int, hi as int),
            n <= hi - lo,
    {
        let mut n: usize = 0;
        let mut i: usize = lo;
        while i < hi
            invariant
                self.inv(),
                lo <= i <= hi <= self.edits.len(),
                n == self@.held_between(lo as int, i as int),
                n <= i - lo,
            decreases hi - i,
        {
            assert(self@.now[i as int] == self.held(i as int));
            match &self.edits[i] {
                Edit::Held(_) => {
                    assert(self@.touched.contains(i as int));
                    n = n + 1;
                },
                _ => {},
            }
            i += 1;
        }
        n
    }

    /// A copy of the committed records.
    pub fn snapshot(&self) -> (r: Vec<Option<T>>)
        requires
            self.inv(),
        ensures
            r@.len() == self@.committed.len(),
            forall|i: int| 0 <= i < r@.len() ==> optional_view(#[trigger] r@[i]) == self@.committed[i],
    {
        let mut r: Vec<Option<T>> = Vec::new();
        let mut i: usize = 0;
        while i < self.base.len()
            invariant
                i <= self.base.len(),
                r.len() == i,
                forall|j: int| 0 <= j < i ==> optional_view(#[trigger] r@[j]) == self@.committed[j],
            decreases self.base.len() - i,
        {
            let record: Option<T> = match &self.base[i] {
                Some(v) => Some(v.copy()),
                None => None,
            };
            r.push(record);
            i += 1;
        }
        r
    }
}

impl<T: Record> View for Layered<T> {
    type V = LayerView<T::V>;

    closed spec fn view(&self) -> LayerView<T::V> {
        LayerView {
            committed: Seq::new(self.base.len() as nat, |i: int| optional_view(self.base[i])),
            now: Seq::new(self.edits.len() as nat, |i: int| self.held(i)),
            touched: Set::new(|i: int| 0 <= i < self.edits.len() && !(self.edits[i] is Base)),
            stamps: self.stamps@,
        }
    }
}

/// What an overlay counted when it was measured.
#[derive(Debug, Clone, Copy)]
pub struct OverlayCensus {
    /// Entities the overlay created.
    pub local: usize,
    /// Committed entities the overlay copied to edit.
    pub shadows: usize,
    /// Values whose use list the overlay extended.
    pub use_deltas: usize,
}

/// A record keeps the generation it was handed out with exactly until it is gone.
/// Edits of it and of others, new records and a commit leave the generation alone;
/// erasing it does not, nor does dropping the edits where it was one of them.
pub proof fn generations_last_until_erasure<V>(
    l: LayerView<V>,
    id: u32,
    other: u32,
    v: V,
    epoch: u32,
    later: u32,
)
    requires
        l.wf(),
        l.now.len() < u32::MAX,
        l.at(id) is Some,
        l.generation(id, epoch) < ERASED,
        other < l.now.len(),
        epoch < later < ERASED,
    ensures
        l.erased(id).generation(id, epoch) != l.generation(id, epoch),
        other != id ==> l.erased(other).generation(id, epoch) == l.generation(id, epoch),
        l.put(other, v).generation(id, epoch) == l.generation(id, epoch),
        l.added(v).generation(id, epoch) == l.generation(id, epoch),
        l.committed_at(epoch).generation(id, later) == l.generation(id, epoch),
        l.pending(id) ==> l.discarded().generation(id, later) != l.generation(id, epoch),
        !l.pending(id) && l.committed[id as int] is Some ==> l.discarded().generation(id, later)
            == l.generation(id, epoch),
{
}

} // verus!

//! The one flat byte-addressed memory an interpretation runs against.
use vstd::prelude::*;
use crate::interp::gives;
use crate::interp::low_bits;
use crate::interp::IntValue;
use crate::interp::InterpError;
use crate::interp::InterpErrorView;

verus! {

/// The address of the first byte, which keeps null distinct from every
/// allocation.
pub const MEMORY_BASE: u64 = 0x10_0000;

/// A flat memory. Allocations bump upward; every byte tracks whether it was
/// written, so an unwritten read fails instead of inventing data.
pub struct Memory {
    bytes: Vec<u8>,
    written: Vec<bool>,
    next: u64,
}

/// The bytes of a memory from its base on, none where nothing was written yet,
/// and the address the next allocation is sought from.
pub ghost struct MemoryView {
    pub cells: Seq<Option<u8>>,
    pub next: nat,
}

impl MemoryView {
    /// Whether the memory reaches to the address the next allocation is sought
    /// from.
    pub open spec fn wf(self) -> bool {
        MEMORY_BASE <= self.next <= u64::MAX && self.cells.len() == self.next - MEMORY_BASE
    }

    /// Where an allocation aligned to `align` begins.
    pub open spec fn place(self, align: u64) -> nat {
        let a: nat = if align == 0 {
            1
        } else {
            align as nat
        };
        (((self.next + a - 1) as nat / a) * a) as nat
    }

    /// After `size` bytes aligned to `align` were allocated.
    pub open spec fn allocated(self, size: u64, align: u64) -> Self {
        let next = self.place(align) + size as nat;
        MemoryView {
            cells: self.cells + Seq::new((next - self.next) as nat, |i: int| None::<u8>),
            next,
        }
    }

    /// Whether `size` bytes from `address` on lie in the memory.
    pub open spec fn holds(self, address: u64, size: nat) -> bool {
        MEMORY_BASE <= address && address - MEMORY_BASE + size <= self.cells.len()
    }

    /// The cells of `size` bytes from `address` on.
    pub open spec fn at(self, address: u64, size: nat) -> Seq<Option<u8>> {
        self.cells.subrange(address - MEMORY_BASE, address - MEMORY_BASE + size)
    }

    /// What reading `size` bytes from `address` on gives.
    pub open spec fn reading(self, address: u64, size: u64) -> Result<Seq<u8>, InterpErrorView> {
        if !self.holds(address, size as nat) {
            Err(InterpErrorView::OutOfBounds(address, size))
        } else if unwritten(self.at(address, size as nat)) {
            Err(InterpErrorView::Uninitialized(address, size))
        } else {
            Ok(Seq::new(size as nat, |i: int| self.at(address, size as nat)[i]->0))
        }
    }

    /// After `bytes` were written from `address` on.
    pub open spec fn with_bytes(self, address: u64, bytes: Seq<u8>) -> Self {
        let offset = address - MEMORY_BASE;
        MemoryView {
            cells: Seq::new(
                self.cells.len(),
                |i: int|
                    if offset <= i < offset + bytes.len() {
                        Some(bytes[i - offset])
                    } else {
                        self.cells[i]
                    },
            ),
            ..self
        }
    }

    /// Where writing `bytes` from `address` on leads and what it gives.
    pub open spec fn writing(self, address: u64, bytes: Seq<u8>) -> (
        Self,
        Result<(), InterpErrorView>,
    ) {
        if self.holds(address, bytes.len()) {
            (self.with_bytes(address, bytes), Ok(()))
        } else {
            (self, Err(InterpErrorView::OutOfBounds(address, bytes.len() as u64)))
        }
    }
}

/// Whether some of `cells` were not written.
pub open spec fn unwritten(cells: Seq<Option<u8>>) -> bool {
    exists|i: int| 0 <= i < cells.len() && (#[trigger] cells[i]) is None
}

/// The number `bytes` spell, the first of them lowest.
pub open spec fn little_endian(bytes: Seq<u8>) -> nat
    decreases bytes.len(),
{
    if bytes.len() == 0 {
        0
    } else {
        bytes[0] as nat + 256 * little_endian(bytes.skip(1))
    }
}

/// The `n` lowest bytes of `raw`, the lowest first.
pub open spec fn low_bytes(raw: nat, n: nat) -> Seq<u8>
    decreases n,
{
    if n == 0 {
        Seq::empty()
    } else {
        seq![(raw % 256) as u8] + low_bytes(raw / 256, (n - 1) as nat)
    }
}

impl View for Memory {
    type V = MemoryView;

    closed spec fn view(&self) -> MemoryView {
        MemoryView {
            cells: Seq::new(
                self.bytes@.len(),
                |i: int|
                    if self.written@[i] {
                        Some(self.bytes@[i])
                    } else {
                        None
                    },
            ),
            next: self.next as nat,
        }
    }
}

impl Memory {
    /// Whether the memory is whole.
    pub closed spec fn inv(&self) -> bool {
        self@.wf() && self.written@.len() == self.bytes@.len()
    }

    /// A memory is as its view says.
    pub proof fn is_whole(&self)
        requires
            self.inv(),
        ensures
            self@.wf(),
    {
    }

    /// Whether `size` more bytes aligned to `align` can be allocated.
    pub fn has_room(&self, size: u64, align: u64) -> (r: bool)
        requires
            self.inv(),
        ensures
            r == (self@.place(align) + size <= u64::MAX && self@.place(align) + size - MEMORY_BASE
                <= usize::MAX),
    {
        let a: u64 = if align == 0 {
            1
        } else {
            align
        };
        let rest: u64 = self.next % a;
        proof {
            place_is_next_multiple(self.next as nat, a as nat);
        }
        let aligned: u128 = if rest == 0 {
            self.next as u128
        } else {
            self.next as u128 + (a - rest) as u128
        };
        let end: u128 = aligned + size as u128;
        end <= u64::MAX as u128 && end - MEMORY_BASE as u128 <= usize::MAX as u128
    }

    /// Allocates `size` bytes aligned to `align`, none of them written.
    pub fn allocate(&mut self, size: u64, align: u64) -> (address: u64)
        requires
            old(self).inv(),
            old(self)@.place(align) + size <= u64::MAX,
            old(self)@.place(align) + size - MEMORY_BASE <= usize::MAX,
        ensures
            final(self).inv(),
            final(self)@ == old(self)@.allocated(size, align),
            address == old(self)@.place(align),
    {
        let ghost before = self@;
        let a: u64 = if align == 0 {
            1
        } else {
            align
        };
        let rest: u64 = self.next % a;
        proof {
            place_is_next_multiple(self.next as nat, a as nat);
        }
        let aligned: u64 = if rest == 0 {
            self.next
        } else {
            self.next + (a - rest)
        };
        self.next = aligned + size;
        let used: usize = (self.next - MEMORY_BASE) as usize;
        let ghost len = self.bytes@.len();
        while self.bytes.len() < used
            invariant
                self.next == aligned + size,
                used == self.next - MEMORY_BASE,
                self.bytes.len() == self.written.len(),
                len <= self.bytes.len() <= used,
                len == before.cells.len(),
                forall|i: int|
                    0 <= i < len ==> (#[trigger] before.cells[i]) == if self.written@[i] {
                        Some(self.bytes@[i])
                    } else {
                        None
                    },
                forall|i: int| len <= i < self.written@.len() ==> !(#[trigger] self.written@[i]),
            decreases used - self.bytes.len(),
        {
            self.bytes.push(0);
            self.written.push(false);
        }
        assert(self@.cells =~= before.allocated(size, align).cells);
        aligned
    }

    fn offset(&self, address: u64, size: u64) -> (r: Option<usize>)
        requires
            self.inv(),
        ensures
            match r {
                Some(offset) => self@.holds(address, size as nat) && offset == address
                    - MEMORY_BASE && offset + size <= usize::MAX,
                None => !self@.holds(address, size as nat),
            },
    {
        if address < MEMORY_BASE {
            return None;
        }
        let offset: u64 = address - MEMORY_BASE;
        let len: usize = self.bytes.len();
        if offset > len as u64 || size > len as u64 - offset {
            return None;
        }
        Some(offset as usize)
    }

    /// Whether `size` bytes from `address` on lie in the memory.
    pub fn contains(&self, address: u64, size: u64) -> (r: bool)
        requires
            self.inv(),
        ensures
            r == self@.holds(address, size as nat),
            r ==> size <= usize::MAX,
    {
        self.offset(address, size).is_some()
    }

    /// Reads `size` bytes from `address` on, all of which have to be written.
    pub fn read(&self, address: u64, size: u64) -> (r: Result<Vec<u8>, InterpError>)
        requires
            self.inv(),
        ensures
            gives(r, self@.reading(address, size), |v: Vec<u8>| v@),
    {
        let offset: usize = match self.offset(address, size) {
            Some(offset) => offset,
            None => {
                return Err(InterpError::OutOfBounds { address, size });
            },
        };
        let n: usize = size as usize;
        let ghost cells = self@.at(address, size as nat);
        let mut r: Vec<u8> = Vec::new();
        let mut i: usize = 0;
        while i < n
            invariant
                i <= n,
                n == size,
                self.inv(),
                self@.holds(address, size as nat),
                offset == address - MEMORY_BASE,
                offset + n <= usize::MAX,
                cells == self@.at(address, size as nat),
                r.len() == i,
                forall|k: int| 0 <= k < i ==> (#[trigger] cells[k]) == Some(r@[k]),
            decreases n - i,
        {
            assert(cells[i as int] == self@.cells[offset + i]);
            if !self.written[offset + i] {
                assert(unwritten(cells));
                return Err(InterpError::Uninitialized { address, size });
            }
            r.push(self.bytes[offset + i]);
            i += 1;
        }
        assert(r@ =~= Seq::new(size as nat, |k: int| cells[k]->0));
        Ok(r)
    }

    /// Writes `bytes` from `address` on.
    pub fn write(&mut self, address: u64, bytes: &Vec<u8>) -> (r: Result<(), InterpError>)
        requires
            old(self).inv(),
        ensures
            final(self).inv(),
            final(self)@ == old(self)@.writing(address, bytes@).0,
            gives(r, old(self)@.writing(address, bytes@).1, |u: ()| u),
    {
        let ghost before = self@;
        let offset: usize = match self.offset(address, bytes.len() as u64) {
            Some(offset) => offset,
            None => {
                return Err(InterpError::OutOfBounds { address, size: bytes.len() as u64 });
            },
        };
        let mut i: usize = 0;
        while i < bytes.len()
            invariant
                i <= bytes.len(),
                self.inv(),
                self@.next == before.next,
                before.wf(),
                before.holds(address, bytes@.len()),
                offset == address - MEMORY_BASE,
                offset + bytes.len() <= usize::MAX,
                self@.cells.len() == before.cells.len(),
                forall|k: int|
                    0 <= k < before.cells.len() ==> (#[trigger] self@.cells[k]) == if offset <= k
                        < offset + i {
                        Some(bytes@[k - offset])
                    } else {
                        before.cells[k]
                    },
            decreases bytes.len() - i,
        {
            let ghost so_far = self@;
            let ghost flags = self.written@;
            let ghost data = self.bytes@;
            self.bytes.set(offset + i, bytes[i]);
            self.written.set(offset + i, true);
            assert forall|k: int| 0 <= k < before.cells.len() implies (#[trigger] self@.cells[k])
                == if offset <= k < offset + i + 1 {
                Some(bytes@[k - offset])
            } else {
                before.cells[k]
            } by {
                if k != offset + i {
                    assert(self@.cells[k] == so_far.cells[k]);
                }
            }
            i += 1;
        }
        assert(self@.cells =~= before.with_bytes(address, bytes@).cells);
        Ok(())
    }

    /// Reads an integer of `width` bits, the lowest byte first.
    pub fn read_int(&self, address: u64, width: u32) -> (r: Result<IntValue, InterpError>)
        requires
            self.inv(),
            width <= 64,
        ensures
            gives(r, self@.reading_int(address, width), |n: IntValue| n),
    {
        match self.read(address, (width / 8) as u64) {
            Ok(bytes) => {
                let mut raw: u64 = 0;
                let mut i: usize = bytes.len();
                proof {
                    assert(bytes@.skip(i as int) =~= Seq::<u8>::empty());
                }
                while i > 0
                    invariant
                        i <= bytes.len() <= 8,
                        raw == little_endian(bytes@.skip(i as int)),
                        little_endian(bytes@.skip(i as int)) < pow256((bytes.len() - i) as nat),
                    decreases i,
                {
                    i -= 1;
                    proof {
                        assert(bytes@.skip(i as int).skip(1) =~= bytes@.skip(i + 1));
                        assert(bytes@.skip(i as int)[0] == bytes@[i as int]);
                        pow256_bounds((bytes.len() - i - 1) as nat);
                    }
                    raw = raw * 256 + bytes[i] as u64;
                }
                assert(bytes@.skip(0) =~= bytes@);
                Ok(IntValue::new(width, raw))
            },
            Err(e) => Err(e),
        }
    }

    /// Writes an integer, the lowest byte first.
    pub fn write_int(&mut self, address: u64, value: &IntValue) -> (r: Result<(), InterpError>)
        requires
            old(self).inv(),
            value.width <= 64,
        ensures
            final(self).inv(),
            final(self)@ == old(self)@.writing_int(address, *value).0,
            gives(r, old(self)@.writing_int(address, *value).1, |u: ()| u),
    {
        let n: u32 = value.width / 8;
        let mut bytes: Vec<u8> = Vec::new();
        let mut raw: u64 = value.bits;
        let mut i: u32 = 0;
        let ghost whole = low_bytes(value.bits as nat, n as nat);
        while i < n
            invariant
                i <= n,
                bytes.len() == i,
                whole == low_bytes(value.bits as nat, n as nat),
                whole == bytes@ + low_bytes(raw as nat, (n - i) as nat),
            decreases n - i,
        {
            let ghost rest = low_bytes(raw as nat / 256, (n - i - 1) as nat);
            let byte: u8 = (raw % 256) as u8;
            bytes.push(byte);
            assert(whole =~= bytes@ + rest);
            raw = raw / 256;
            i += 1;
        }
        assert(whole =~= bytes@);
        self.write(address, &bytes)
    }
}

/// The number of values `n` bytes can spell.
pub open spec fn pow256(n: nat) -> nat
    decreases n,
{
    if n == 0 {
        1
    } else {
        256 * pow256((n - 1) as nat)
    }
}

proof fn pow256_bounds(n: nat)
    requires
        n < 8,
    ensures
        256 * pow256(n) <= 0x1_0000_0000_0000_0000,
        pow256(n) >= 1,
{
    reveal_with_fuel(pow256, 9);
}

proof fn place_is_next_multiple(next: nat, a: nat)
    requires
        a >= 1,
    ensures
        ((next + a - 1) as nat / a) * a == if next % a == 0 {
            next
        } else {
            (next + (a - next % a)) as nat
        },
{
    let q = next / a;
    let m = next % a;
    vstd::arithmetic::div_mod::lemma_fundamental_div_mod(next as int, a as int);
    if m == 0 {
        assert((next + a - 1) as int / a as int == q) by (nonlinear_arith)
            requires
                next == a * q,
                a >= 1,
        ;
        assert(q * a == next) by (nonlinear_arith)
            requires
                next == a * q,
        ;
    } else {
        vstd::arithmetic::div_mod::lemma_mod_bound(next as int, a as int);
        assert((next + a - 1) as int / a as int == q + 1) by (nonlinear_arith)
            requires
                next == a * q + m,
                1 <= m < a,
        ;
        assert((q + 1) * a == next + (a - m)) by (nonlinear_arith)
            requires
                next == a * q + m,
        ;
    }
}

impl MemoryView {
    /// What reading an integer of `width` bits at `address` gives.
    pub open spec fn reading_int(self, address: u64, width: u32) -> Result<
        IntValue,
        InterpErrorView,
    > {
        match self.reading(address, (width / 8) as u64) {
            Ok(bytes) => Ok(
                IntValue {
                    width,
                    bits: low_bits(width, little_endian(bytes) as u64),
                    signed: false,
                },
            ),
            Err(e) => Err(e),
        }
    }

    /// Where writing an integer at `address` leads and what it gives.
    pub open spec fn writing_int(self, address: u64, value: IntValue) -> (
        Self,
        Result<(), InterpErrorView>,
    ) {
        self.writing(address, low_bytes(value.bits as nat, (value.width / 8) as nat))
    }
}

impl Default for Memory {
    /// A memory with nothing allocated.
    fn default() -> (r: Self)
        ensures
            r.inv(),
            r@ == (MemoryView { cells: Seq::empty(), next: MEMORY_BASE as nat }),
    {
        let r = Memory { bytes: Vec::new(), written: Vec::new(), next: MEMORY_BASE };
        assert(r@.cells =~= Seq::<Option<u8>>::empty());
        r
    }
}

/// What is written is read back.
pub proof fn written_bytes_are_read_back(m: MemoryView, address: u64, bytes: Seq<u8>)
    requires
        m.holds(address, bytes.len()),
        bytes.len() <= u64::MAX,
    ensures
        m.with_bytes(address, bytes).reading(address, bytes.len() as u64) == Ok::<
            Seq<u8>,
            InterpErrorView,
        >(bytes),
{
    let after = m.with_bytes(address, bytes);
    let cells = after.at(address, bytes.len());
    assert forall|i: int| 0 <= i < cells.len() implies (#[trigger] cells[i]) == Some(bytes[i]) by {
        assert(cells[i] == after.cells[address - MEMORY_BASE + i]);
    }
    assert(Seq::new(bytes.len(), |i: int| cells[i]->0) =~= bytes);
}

/// A write leaves every byte outside it as it was.
pub proof fn writes_stay_in_bounds(m: MemoryView, address: u64, bytes: Seq<u8>, other: u64, size: u64)
    requires
        m.holds(address, bytes.len()),
        other + size <= address || address + bytes.len() <= other,
    ensures
        m.with_bytes(address, bytes).reading(other, size) == m.reading(other, size),
{
    if m.holds(other, size as nat) {
        assert(m.with_bytes(address, bytes).at(other, size as nat) =~= m.at(other, size as nat));
    }
}

/// An allocation is aligned, lies above every earlier one and above null, and
/// leaves what was written before as it was; none of its bytes can be read until
/// written.
pub proof fn allocations_are_fresh(m: MemoryView, size: u64, align: u64)
    requires
        m.wf(),
        align > 0,
        size > 0,
        m.place(align) + size <= u64::MAX,
    ensures
        m.place(align) % align as nat == 0,
        m.place(align) >= m.next,
        m.place(align) > 0,
        m.allocated(size, align).wf(),
        m.allocated(size, align).cells.take(m.cells.len() as int) == m.cells,
        m.allocated(size, align).reading(m.place(align) as u64, size) == Err::<
            Seq<u8>,
            InterpErrorView,
        >(InterpErrorView::Uninitialized(m.place(align) as u64, size)),
{
    place_is_next_multiple(m.next, align as nat);
    let q = (m.next + align - 1) as nat / align as nat;
    assert((q * align as nat) % align as nat == 0) by {
        vstd::arithmetic::div_mod::lemma_mod_multiples_basic(q as int, align as int);
    }
    if m.next % align as nat != 0 {
        vstd::arithmetic::div_mod::lemma_mod_bound(m.next as int, align as int);
    }
    let after = m.allocated(size, align);
    let address = m.place(align) as u64;
    assert(after.cells.take(m.cells.len() as int) =~= m.cells);
    let cells = after.at(address, size as nat);
    assert(cells[0] == after.cells[address - MEMORY_BASE]);
    assert(cells[0] is None);
    assert(unwritten(cells));
}

/// The bytes of a number spell it, where they are enough for it.
pub proof fn low_bytes_spell(raw: nat, n: nat)
    requires
        raw < pow256(n),
    ensures
        low_bytes(raw, n).len() == n,
        little_endian(low_bytes(raw, n)) == raw,
    decreases n,
{
    if n > 0 {
        assert(raw / 256 < pow256((n - 1) as nat));
        low_bytes_spell(raw / 256, (n - 1) as nat);
        assert(low_bytes(raw, n).skip(1) =~= low_bytes(raw / 256, (n - 1) as nat));
        assert(low_bytes(raw, n)[0] == (raw % 256) as u8);
    }
}

/// An integer of whole bytes that is written is read back.
pub proof fn written_integers_are_read_back(m: MemoryView, address: u64, value: IntValue)
    requires
        value.width <= 64,
        value.width % 8 == 0,
        value.bits == low_bits(value.width, value.bits),
        m.holds(address, (value.width / 8) as nat),
    ensures
        m.writing_int(address, value).0.reading_int(address, value.width) == Ok::<
            IntValue,
            InterpErrorView,
        >(IntValue { signed: false, ..value }),
{
    let n = (value.width / 8) as nat;
    assert(value.bits < pow256(n)) by {
        vstd::arithmetic::power2::lemma2_to64();
        vstd::arithmetic::power2::lemma2_to64_rest();
        reveal_with_fuel(pow256, 9);
        if value.width < 64 {
            vstd::arithmetic::power2::lemma_pow2_pos(value.width as nat);
            vstd::arithmetic::div_mod::lemma_mod_bound(
                value.bits as int,
                vstd::arithmetic::power2::pow2(value.width as nat) as int,
            );
            assert(value.width == 0 || value.width == 8 || value.width == 16 || value.width == 24
                || value.width == 32 || value.width == 40 || value.width == 48 || value.width
                == 56);
        }
    }
    low_bytes_spell(value.bits as nat, n);
    written_bytes_are_read_back(m, address, low_bytes(value.bits as nat, n));
}

/// An allocation of any size and alignment starts at a multiple of the alignment, at or
/// above the base and the end of every earlier one. It can be written whole and not a
/// byte further, and every earlier byte reads as it did.
pub proof fn allocations_are_whole(m: MemoryView, size: u64, align: u64)
    requires
        m.wf(),
        m.place(align) + size < u64::MAX,
    ensures
        ({
            let a: nat = if align == 0 {
                1
            } else {
                align as nat
            };
            let at = m.place(align);
            let after = m.allocated(size, align);
            &&& at % a == 0
            &&& at >= MEMORY_BASE
            &&& at >= m.next
            &&& after.holds(at as u64, size as nat)
            &&& !after.holds(at as u64, size as nat + 1)
            &&& forall|address: u64, n: u64|
                m.holds(address, n as nat) ==> #[trigger] after.reading(address, n) == m.reading(
                    address,
                    n,
                )
        }),
{
    let a: nat = if align == 0 {
        1
    } else {
        align as nat
    };
    place_is_next_multiple(m.next, a);
    let q = (m.next + a - 1) as nat / a;
    assert((q * a) % a == 0) by {
        vstd::arithmetic::div_mod::lemma_mod_multiples_basic(q as int, a as int);
    }
    vstd::arithmetic::div_mod::lemma_mod_bound(m.next as int, a as int);
    let after = m.allocated(size, align);
    assert forall|address: u64, n: u64| m.holds(address, n as nat) implies #[trigger] after.reading(
        address,
        n,
    ) == m.reading(address, n) by {
        assert(after.at(address, n as nat) =~= m.at(address, n as nat));
    }
}

} // verus!

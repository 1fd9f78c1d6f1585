//! The stack frame of a function under allocation: slot assignment across spill
//! rounds, and the layout formulas for the stable frame area.
use vstd::prelude::*;
use crate::backend::abi::AbiInfo;
use crate::backend::abi::SaveStyle;

verus! {

/// The least multiple of `align` that is not below `n`.
pub open spec fn rounded_up(n: int, align: int) -> int {
    ((n + align - 1) / align) * align
}

/// An alignment, at least one.
pub open spec fn at_least_one(align: u32) -> int {
    if align == 0 {
        1
    } else {
        align as int
    }
}

/// Rounding up reaches a multiple, no lower and less than one step away.
pub proof fn rounding_reaches_a_multiple(n: int, align: int)
    requires
        0 <= n,
        1 <= align,
    ensures
        rounded_up(n, align) % align == 0,
        n <= rounded_up(n, align) < n + align,
{
    let q = (n + align - 1) / align;
    assert(q * align <= n + align - 1 < q * align + align) by (nonlinear_arith)
        requires
            q == (n + align - 1) / align,
            1 <= align,
            0 <= n,
    ;
    vstd::arithmetic::div_mod::lemma_mod_multiples_basic(q, align);
}

/// `size` rounded up to `align`.
pub open spec fn aligned_size(size: u32, align: u32) -> int {
    if size == 0 {
        0
    } else {
        rounded_up(size as int, at_least_one(align))
    }
}

/// `size` rounded up to `align`.
pub fn align_to(size: u32, align: u32) -> (r: u32)
    requires
        aligned_size(size, align) <= u32::MAX,
    ensures
        r == aligned_size(size, align),
{
    if size == 0 {
        return 0;
    }
    let align: u32 = if align == 0 {
        1
    } else {
        align
    };
    let wide: u64 = size as u64 + align as u64 - 1;
    let q: u64 = wide / align as u64;
    proof {
        assert(q * align as u64 <= wide) by (nonlinear_arith)
            requires
                q == wide / (align as u64),
                align > 0,
        ;
    }
    (q * align as u64) as u32
}

/// What is added to `offset` for it to leave `desired` over `align`.
pub open spec fn remainder_gap(offset: int, align: int, desired: int) -> int {
    (desired + align - offset % align) % align
}

/// What is added to `offset` for it to leave `desired` over `align`.
pub fn align_delta(offset: u32, align: u32, desired: u32) -> (r: u32)
    requires
        desired as int + at_least_one(align) <= u32::MAX,
    ensures
        r == remainder_gap(offset as int, at_least_one(align), desired as int),
{
    let align: u32 = if align == 0 {
        1
    } else {
        align
    };
    (desired + align - offset % align) % align
}

/// The gap brings an offset to the remainder asked for.
pub proof fn gap_reaches_the_remainder(offset: int, align: int, desired: int)
    requires
        0 <= offset,
        1 <= align,
        0 <= desired < align,
    ensures
        (offset + remainder_gap(offset, align, desired)) % align == desired,
        0 <= remainder_gap(offset, align, desired) < align,
{
    let m = offset % align;
    let d = desired + align - m;
    vstd::arithmetic::div_mod::lemma_mod_bound(offset, align);
    vstd::arithmetic::div_mod::lemma_mod_bound(d, align);
    vstd::arithmetic::div_mod::lemma_add_mod_noop(offset, d, align);
    vstd::arithmetic::div_mod::lemma_mod_twice(offset, align);
    vstd::arithmetic::div_mod::lemma_add_mod_noop_right(offset, d, align);
    assert((offset + d % align) % align == (offset + d) % align);
    vstd::arithmetic::div_mod::lemma_add_mod_noop(m, d, align);
    assert((offset + d) % align == (m + d) % align) by {
        vstd::arithmetic::div_mod::lemma_mod_twice(offset, align);
    }
    assert(m + d == desired + align);
    vstd::arithmetic::div_mod::lemma_mod_add_multiples_vanish(desired, align);
    vstd::arithmetic::div_mod::lemma_small_mod(desired as nat, align as nat);
    assert((desired + align) % align == desired % align) by {
        assert(align + desired == desired + align);
    }
}

/// Tracks stack-slot assignment across spill rounds.
#[derive(Debug)]
pub struct FramePlan {
    pub align: u32,
    pub slot_size: u32,
    pub save_style: SaveStyle,
    pub next_offset: i64,
    pub rounds: usize,
    /// Fresh registers introduced by reload and store range-splitting. They have
    /// tiny live ranges and must land in a register; protecting them from
    /// re-spilling forces the allocator to spill a longer-lived value instead,
    /// so pressure drops and the spill loop converges.
    pub temps: Vec<u32>,
}

/// Where a piece of `align` starts after everything placed below `next`.
pub open spec fn placed_at(next: i64, align: u32) -> int {
    rounded_up(next as int, at_least_one(align))
}

impl FramePlan {
    /// The plan with everything but the next offset.
    pub open spec fn same_but_offset(self, other: Self) -> bool {
        &&& self.align == other.align
        &&& self.slot_size == other.slot_size
        &&& self.save_style == other.save_style
        &&& self.rounds == other.rounds
        &&& self.temps@ == other.temps@
    }

    /// An empty frame under a calling convention.
    pub fn new(abi: &AbiInfo) -> (r: Self)
        ensures
            r.align == abi.stack.align,
            r.slot_size == abi.stack.slot_size,
            r.save_style == abi.stack.save_style,
            r.next_offset == 0,
            r.rounds == 0,
            r.temps@ == Seq::<u32>::empty(),
    {
        FramePlan {
            align: abi.stack.align,
            slot_size: abi.stack.slot_size,
            save_style: abi.stack.save_style,
            next_offset: 0,
            rounds: 0,
            temps: Vec::new(),
        }
    }

    /// Keeps the bottom `size` bytes for the arguments of calls.
    pub fn reserve_outgoing(&mut self, size: u32)
        ensures
            final(self).same_but_offset(*old(self)),
            final(self).next_offset == if old(self).next_offset < size as i64 {
                size as i64
            } else {
                old(self).next_offset
            },
    {
        if self.next_offset < size as i64 {
            self.next_offset = size as i64;
        }
    }

    /// Places a spill slot and answers its offset.
    pub fn alloc_slot(&mut self) -> (offset: i64)
        requires
            0 <= old(self).next_offset,
            old(self).next_offset + 2 * old(self).slot_size + 1 <= i64::MAX,
        ensures
            final(self).same_but_offset(*old(self)),
            offset == placed_at(old(self).next_offset, old(self).slot_size),
            final(self).next_offset == offset + old(self).slot_size,
    {
        self.place(self.slot_size, self.slot_size)
    }

    /// Places a stack allocation and answers its offset.
    pub fn alloc_stack_allocation(&mut self, size: u32, align: u32) -> (offset: i64)
        requires
            0 <= old(self).next_offset,
            old(self).next_offset + size + align + 1 <= i64::MAX,
        ensures
            final(self).same_but_offset(*old(self)),
            offset == placed_at(old(self).next_offset, align),
            final(self).next_offset == offset + size,
    {
        self.place(size, align)
    }

    /// Places a callee-saved register and answers its offset; one that is
    /// pushed takes no place in the frame.
    pub fn alloc_callee_save(&mut self) -> (offset: i64)
        requires
            0 <= old(self).next_offset,
            old(self).next_offset + 2 * old(self).slot_size + 1 <= i64::MAX,
        ensures
            final(self).same_but_offset(*old(self)),
            old(self).save_style == SaveStyle::FrameSlots ==> offset == placed_at(
                old(self).next_offset,
                old(self).slot_size,
            ) && final(self).next_offset == offset + old(self).slot_size,
            old(self).save_style == SaveStyle::PushPop ==> offset == 0 && final(self).next_offset
                == old(self).next_offset,
    {
        if self.save_style == SaveStyle::FrameSlots {
            self.alloc_slot()
        } else {
            0
        }
    }

    fn place(&mut self, size: u32, align: u32) -> (offset: i64)
        requires
            0 <= old(self).next_offset,
            old(self).next_offset + size + align + 1 <= i64::MAX,
        ensures
            final(self).same_but_offset(*old(self)),
            offset == placed_at(old(self).next_offset, align),
            final(self).next_offset == offset + size,
    {
        let align: i64 = if align == 0 {
            1
        } else {
            align as i64
        };
        proof {
            rounding_reaches_a_multiple(self.next_offset as int, align as int);
        }
        let steps: i64 = (self.next_offset + align - 1) / align;
        let offset: i64 = steps * align;
        self.next_offset = offset + size as i64;
        offset
    }

    /// The size of the stable frame area.
    pub open spec fn stable(self) -> int {
        aligned_size(self.next_offset as u32, self.align)
    }

    /// The size of the stable frame area.
    pub fn stable_size(&self) -> (r: u32)
        requires
            0 <= self.next_offset <= u32::MAX,
            self.stable() <= u32::MAX,
        ensures
            r == self.stable(),
    {
        align_to(self.next_offset as u32, self.align)
    }

    /// How far the prologue moves the stack pointer: the stable area, and where
    /// registers are pushed ahead of calls, what brings the stack to its
    /// alignment at each call.
    pub open spec fn adjustment(self, has_calls: bool, pushed_saves: int) -> int {
        if self.save_style != SaveStyle::PushPop || !has_calls {
            self.stable()
        } else {
            self.stable() + remainder_gap(
                pushed_saves * self.slot_size + self.stable(),
                at_least_one(self.align),
                self.slot_size as int % at_least_one(self.align),
            )
        }
    }

    /// How far the prologue moves the stack pointer.
    pub fn prologue_adjustment(&self, has_calls: bool, pushed_saves: usize) -> (r: u32)
        requires
            0 <= self.next_offset <= u32::MAX,
            self.stable() <= u32::MAX,
            self.save_style == SaveStyle::PushPop && has_calls ==> {
                &&& self.slot_size as int % at_least_one(self.align) + at_least_one(self.align)
                    <= u32::MAX
                &&& pushed_saves <= u32::MAX
                &&& pushed_saves * self.slot_size + self.stable() <= u32::MAX
                &&& self.adjustment(has_calls, pushed_saves as int) <= u32::MAX
            },
        ensures
            r == self.adjustment(has_calls, pushed_saves as int),
            self.save_style != SaveStyle::PushPop || !has_calls ==> r == self.stable(),
            self.save_style == SaveStyle::PushPop && has_calls ==> ({
                let align = at_least_one(self.align);
                &&& self.stable() <= r < self.stable() + align
                &&& (pushed_saves * self.slot_size + r) % align == self.slot_size as int % align
            }),
    {
        let stable: u32 = self.stable_size();
        if self.save_style != SaveStyle::PushPop || !has_calls {
            return stable;
        }
        let align: u32 = if self.align == 0 {
            1
        } else {
            self.align
        };
        proof {
            assert(0 <= pushed_saves * self.slot_size) by (nonlinear_arith);
            vstd::arithmetic::div_mod::lemma_mod_bound(self.slot_size as int, align as int);
            vstd::arithmetic::div_mod::lemma_mod_bound(
                self.slot_size as int % align as int + align as int - (pushed_saves
                    * self.slot_size + self.stable()) % (align as int),
                align as int,
            );
        }
        proof {
            calls_see_an_aligned_stack(*self, pushed_saves as int);
        }
        let gap: u32 = align_delta(
            pushed_saves as u32 * self.slot_size + stable,
            self.align,
            self.slot_size % align,
        );
        stable + gap
    }

    /// Where an incoming stack argument lies above the stack pointer.
    pub open spec fn argument_offset(
        self,
        prologue_adjustment: u32,
        pushed_saves: int,
        stack_index: int,
    ) -> int {
        match self.save_style {
            SaveStyle::FrameSlots => prologue_adjustment + stack_index * self.slot_size,
            SaveStyle::PushPop => pushed_saves * self.slot_size + prologue_adjustment
                + self.slot_size + stack_index * self.slot_size,
        }
    }

    /// Where an incoming stack argument lies above the stack pointer: past the
    /// frame, and past the pushed registers and the return address where they
    /// are pushed.
    pub fn incoming_stack_arg_offset(
        &self,
        prologue_adjustment: u32,
        pushed_saves: usize,
        stack_index: usize,
    ) -> (r: i64)
        requires
            pushed_saves <= 0x3fff_ffff,
            stack_index <= 0x3fff_ffff,
        ensures
            r == self.argument_offset(
                prologue_adjustment,
                pushed_saves as int,
                stack_index as int,
            ),
    {
        let slot: i64 = self.slot_size as i64;
        proof {
            assert(0 <= stack_index * slot <= 0x3fff_ffff * 0xffff_ffff) by (nonlinear_arith)
                requires
                    stack_index <= 0x3fff_ffff,
                    0 <= slot <= 0xffff_ffff,
            ;
            assert(0 <= pushed_saves * slot <= 0x3fff_ffff * 0xffff_ffff) by (nonlinear_arith)
                requires
                    pushed_saves <= 0x3fff_ffff,
                    0 <= slot <= 0xffff_ffff,
            ;
        }
        match self.save_style {
            SaveStyle::FrameSlots => prologue_adjustment as i64 + stack_index as i64 * slot,
            SaveStyle::PushPop => pushed_saves as i64 * slot + prologue_adjustment as i64 + slot
                + stack_index as i64 * slot,
        }
    }
}

/// Two pieces placed one after another do not share a byte, and each starts at
/// a multiple of its alignment.
pub proof fn placed_pieces_are_disjoint(next: i64, size: u32, align: u32, later: u32)
    requires
        0 <= next,
        placed_at(next, align) + size <= i64::MAX,
    ensures
        placed_at(next, align) >= next,
        placed_at(next, align) % at_least_one(align) == 0,
        placed_at((placed_at(next, align) + size) as i64, later) >= placed_at(next, align) + size,
{
    rounding_reaches_a_multiple(next as int, at_least_one(align));
    rounding_reaches_a_multiple(placed_at(next, align) + size, at_least_one(later));
}

/// Where registers are pushed ahead of calls, the stack at a call has moved by
/// what leaves the return address's own remainder over the alignment.
pub proof fn calls_see_an_aligned_stack(plan: FramePlan, pushed_saves: int)
    requires
        plan.save_style == SaveStyle::PushPop,
        0 <= pushed_saves,
        0 <= plan.next_offset,
    ensures
        (pushed_saves * plan.slot_size + plan.adjustment(true, pushed_saves)) % at_least_one(
            plan.align,
        ) == plan.slot_size as int % at_least_one(plan.align),
{
    let align = at_least_one(plan.align);
    let offset = pushed_saves * plan.slot_size + plan.stable();
    assert(0 <= pushed_saves * plan.slot_size) by (nonlinear_arith)
        requires
            0 <= pushed_saves,
    ;
    if (plan.next_offset as u32) > 0 {
        rounding_reaches_a_multiple((plan.next_offset as u32) as int, align);
    }
    vstd::arithmetic::div_mod::lemma_mod_bound(plan.slot_size as int, align);
    gap_reaches_the_remainder(offset, align, plan.slot_size as int % align);
}

} // verus!

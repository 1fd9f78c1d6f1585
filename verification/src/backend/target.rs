//! What register allocation needs to know of a target beyond its register file.
use vstd::prelude::*;
use crate::backend::abi::AbiInfo;
use crate::backend::abi::RegisterInfo;
use crate::backend::classes::ClassView;
use crate::backend::classes::PhysReg;
use crate::backend::classes::RegClassId;
use crate::backend::instructions::all_wf;
use crate::backend::instructions::instruction_views;
use crate::backend::instructions::Instruction;
use crate::backend::instructions::InstructionView;
use crate::backend::instructions::PassError;
use crate::backend::instructions::PassErrorView;
use crate::backend::registers::RegSlot;
use crate::backend::registers::SlotKind;
use crate::ids::ValueId;
use crate::text::cat2;

verus! {

/// A physical register, by what its class record says.
pub type RegView = (ClassView, u16);

/// A physical register, by what its class record says.
pub open spec fn reg_view(register: PhysReg) -> RegView {
    (register.0@, register.1)
}

/// A list of instructions, by what each says.
pub type CodeView = Seq<InstructionView>;

/// Registers and where each is saved, by what the class records say.
pub type SavesView = Seq<(RegView, i64)>;

/// Registers and where each is saved.
pub open spec fn save_views(saves: Seq<(PhysReg, i64)>) -> SavesView {
    saves.map_values(|s: (PhysReg, i64)| (reg_view(s.0), s.1))
}

/// Register classes, by what their records say.
pub type ClassesView = Seq<ClassView>;

/// Register classes, by what their records say.
pub open spec fn class_views(classes: Seq<RegClassId>) -> ClassesView {
    classes.map_values(|c: RegClassId| c@)
}

/// Target-specific knowledge the allocation pass needs but cannot derive from
/// the register file alone: the spill frame layout and the instructions that
/// move a register to and from a stack slot. What a target emits depends on
/// nothing but what it is asked for.
pub trait TargetRegAlloc {
    /// The register classes.
    spec fn classes(&self) -> ClassesView;

    /// The store of `value` to `[frame + offset]`.
    spec fn spill_store(
        &self,
        value: ValueId,
        class: ClassView,
        frame: RegView,
        offset: i64,
    ) -> InstructionView;

    /// The load from `[frame + offset]` defining `value`.
    spec fn spill_reload(
        &self,
        value: ValueId,
        class: ClassView,
        frame: RegView,
        offset: i64,
    ) -> InstructionView;

    /// The copy of `src` into `dst`.
    spec fn copy(&self, class: ClassView, dst: SlotKind, src: SlotKind) -> InstructionView;

    /// What reserves a frame.
    spec fn prologue(&self, abi: AbiInfo, size: u32, saves: SavesView) -> CodeView;

    /// What releases a frame.
    spec fn epilogue(&self, abi: AbiInfo, size: u32, saves: SavesView) -> CodeView;

    /// What puts `[frame + offset]` into `dst`, or why nothing does.
    spec fn frame_address(
        &self,
        dst: ValueId,
        class: ClassView,
        frame: RegView,
        offset: i64,
    ) -> Result<CodeView, PassErrorView>;

    /// The register file.
    fn register_info(&self) -> (r: RegisterInfo)
        ensures
            class_views(r.classes@) == self.classes(),
    ;

    /// Builds a store of `value` (of class `class`) to `[frame + offset]`.
    fn emit_spill_store(
        &self,
        value: ValueId,
        class: RegClassId,
        frame: &PhysReg,
        offset: i64,
    ) -> (r: Instruction)
        ensures
            r@ == self.spill_store(value, class@, reg_view(*frame), offset),
            r@.wf(),
    ;

    /// Builds a load from `[frame + offset]` defining `value`, which the caller
    /// has already created with the class's type.
    fn emit_spill_reload(
        &self,
        value: ValueId,
        class: RegClassId,
        frame: &PhysReg,
        offset: i64,
    ) -> (r: Instruction)
        ensures
            r@ == self.spill_reload(value, class@, reg_view(*frame), offset),
            r@.wf(),
    ;

    /// Builds a register-to-register copy of `src` into `dst` (both of class
    /// `class`). Either end is a value the copy defines or reads, or a physical
    /// register named directly.
    fn emit_copy(&self, class: RegClassId, dst: RegSlot, src: RegSlot) -> (r: Instruction)
        ensures
            r@ == self.copy(class@, dst@, src@),
            r@.wf(),
    ;

    /// Prologue instructions reserving a frame of `size` bytes and saving the
    /// callee-saved registers the allocation used, each at its reserved
    /// `[frame + offset]` slot.
    fn emit_prologue(&self, abi: &AbiInfo, size: u32, saves: &Vec<(PhysReg, i64)>) -> (r: Vec<
        Instruction,
    >)
        ensures
            instruction_views(r@) == self.prologue(*abi, size, save_views(saves@)),
            all_wf(instruction_views(r@)),
    ;

    /// Epilogue instructions restoring the saved callee-saved registers and
    /// releasing the frame.
    fn emit_epilogue(&self, abi: &AbiInfo, size: u32, saves: &Vec<(PhysReg, i64)>) -> (r: Vec<
        Instruction,
    >)
        ensures
            instruction_views(r@) == self.epilogue(*abi, size, save_views(saves@)),
            all_wf(instruction_views(r@)),
    ;

    /// Builds the instructions that put `[frame + offset]` into the virtual
    /// register `dst`.
    fn emit_frame_address(
        &self,
        dst: ValueId,
        class: RegClassId,
        frame: &PhysReg,
        offset: i64,
    ) -> (r: Result<Vec<Instruction>, PassError>)
        ensures
            match r {
                Ok(list) => self.frame_address(dst, class@, reg_view(*frame), offset) == Ok::<
                    Seq<InstructionView>,
                    PassErrorView,
                >(instruction_views(list@)) && all_wf(instruction_views(list@)),
                Err(e) => self.frame_address(dst, class@, reg_view(*frame), offset) == Err::<
                    Seq<InstructionView>,
                    PassErrorView,
                >(e@),
            },
    ;
}

/// The prologue, or the epilogue, of a target that keeps no frame of its own.
pub fn no_frame_code() -> (r: Vec<Instruction>)
    ensures
        instruction_views(r@) == Seq::<InstructionView>::empty(),
        all_wf(instruction_views(r@)),
{
    let r: Vec<Instruction> = Vec::new();
    assert(instruction_views(r@) =~= Seq::empty());
    r
}

/// The answer of a target that has no instructions for frame addresses.
pub fn no_frame_address(class: RegClassId) -> (r: Result<Vec<Instruction>, PassError>)
    ensures
        r is Err && r->Err_0@ == PassErrorView::InvalidRuleSet(
            "stack allocation addresses are not supported for register class "@ + class@.name,
        ),
{
    let text = cat2(
        "stack allocation addresses are not supported for register class ",
        class.name(),
    );
    Err(PassError::InvalidRuleSet(text))
}

} // verus!

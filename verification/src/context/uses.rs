//! That use lists say what operands say.
use vstd::prelude::*;
use crate::context::Context;
use crate::error::invalid;
use crate::error::Error;
use crate::ids::OpId;
use crate::ids::ValueId;
use crate::ir::slot_holds;
use crate::ir::use_list;
use crate::ir::Use;
use crate::text::cat3;
use crate::text::decimal_string;

verus! {

fn finds(uses: &Vec<Use>, slot: Use) -> (r: bool)
    ensures
        r == uses@.contains(slot),
{
    let mut i: usize = 0;
    while i < uses.len()
        invariant
            i <= uses.len(),
            forall|k: int| 0 <= k < i ==> uses@[k] != slot,
        decreases uses.len() - i,
    {
        if uses[i] == slot {
            return true;
        }
        i += 1;
    }
    false
}

impl Context {
    /// In every context, the use list of a value names the operand slots of live
    /// operations that hold it, each once, and no other slot.
    pub proof fn use_lists_say_what_operands_say(&self, value: ValueId, slot: Use)
        requires
            self.inv(),
        ensures
            use_list(self@.ir.uses, value).contains(slot) <==> slot_holds(
                self@.ir.ops,
                slot,
                value,
            ),
            use_list(self@.ir.uses, value).no_duplicates(),
    {
        self.inv_wf();
    }

    /// Checks that the use list of every value that is read names every slot that
    /// reads it. No context fails the check.
    pub fn verify_use_lists(&self) -> (r: Result<(), Error>)
        requires
            self.inv(),
        ensures
            r is Ok,
    {
        proof {
            self.inv_wf();
        }
        let n: usize = self.op_count();
        let mut i: usize = 0;
        while i < n
            invariant
                self.inv(),
                self@.ir.wf(),
                n == self@.ir.ops.now.len(),
                n <= u32::MAX,
                i <= n,
            decreases n - i,
        {
            let op = OpId(i as u32);
            if self.has_operation(op) {
                let operands = self.operands_of(op);
                let mut slot: usize = 0;
                while slot < operands.len()
                    invariant
                        self.inv(),
                        self@.ir.wf(),
                        self@.ir.op(op) is Some,
                        operands@ == self@.ir.op(op)->0.operands,
                        slot <= operands.len(),
                    decreases operands.len() - slot,
                {
                    let value: ValueId = operands[slot];
                    let named = Use { op, index: slot };
                    proof {
                        self.use_lists_say_what_operands_say(value, named);
                    }
                    if !finds(&self.uses_of(value), named) {
                        let text = cat3(
                            "use list of value ",
                            decimal_string(value.0 as u64).as_str(),
                            " does not hold what operands say",
                        );
                        return Err(invalid(text.as_str()));
                    }
                    slot += 1;
                }
            }
            i += 1;
        }
        Ok(())
    }
}

} // verus!

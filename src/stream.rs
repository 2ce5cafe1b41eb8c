//! A cursor over the instructions and constants of one prototype.
use vstd::prelude::*;

use crate::chunk::{FunctionBlock, LuaConstant};
use crate::instruction::{VMInst, VMOpcode};

verus! {

/// A copy of an instruction.
fn copy_inst(i: &VMInst) -> (r: VMInst)
    ensures
        r.spec_view() == i.spec_view(),
{
    let params = i.params.clone();
    assert(params@ =~= i.params@);
    VMInst { opcode: i.opcode, params }
}

/// The instructions of `func`, read in order; `idx` is the number already taken.
pub struct InstStream {
    pub idx: usize,
    pub func: FunctionBlock,
}

impl InstStream {
    /// A cursor before the first instruction of `func`.
    pub fn new(func: FunctionBlock) -> (r: InstStream)
        ensures
            r.idx == 0,
            r.func == func,
    {
        InstStream { idx: 0, func }
    }

    /// Takes the next instruction, if any is left.
    pub fn next(&mut self) -> (r: Option<VMInst>)
        ensures
            final(self).func == old(self).func,
            old(self).idx < old(self).func.list_instructions@.len() ==> (r matches Some(i)
                && i.spec_view() == old(self).func.list_instructions@[old(self).idx as int].spec_view()
                && final(self).idx == old(self).idx + 1),
            old(self).idx >= old(self).func.list_instructions@.len() ==> r is None
                && final(self).idx == old(self).idx,
    {
        if self.idx >= self.func.list_instructions.len() {
            return None;
        }
        let i = copy_inst(&self.func.list_instructions[self.idx]);
        self.idx = self.idx + 1;
        Some(i)
    }

    /// The instruction `amount` places after the one taken last.
    pub fn peek_ahead(&self, amount: usize) -> (r: Option<VMInst>)
        requires
            self.idx >= 1,
        ensures
            ({
                let j = self.idx - 1 + amount;
                &&& j < self.func.list_instructions@.len() ==> (r matches Some(i)
                    && i.spec_view() == self.func.list_instructions@[j].spec_view())
                &&& j >= self.func.list_instructions@.len() ==> r is None
            }),
    {
        let last = self.idx - 1;
        if amount >= self.func.list_instructions.len() || last >= self.func.list_instructions.len()
            - amount {
            return None;
        }
        Some(copy_inst(&self.func.list_instructions[last + amount]))
    }

    /// Whether the instruction after the one taken last has opcode `opcode`.
    pub fn next_inst_is(&self, opcode: VMOpcode) -> (r: bool)
        requires
            self.idx >= 1,
        ensures
            r == (self.idx < self.func.list_instructions@.len()
                && self.func.list_instructions@[self.idx as int].opcode == opcode),
    {
        match self.peek_ahead(1) {
            Some(v) => v.opcode == opcode,
            None => false,
        }
    }

    /// Constant `idx` of the prototype's pool.
    pub fn get_const(&self, idx: u32) -> (r: Option<&LuaConstant>)
        ensures
            idx < self.func.list_const@.len() ==> r == Some(&self.func.list_const@[idx as int]),
            idx >= self.func.list_const@.len() ==> r is None,
    {
        if (idx as usize) < self.func.list_const.len() {
            Some(&self.func.list_const[idx as usize])
        } else {
            None
        }
    }
}

} // verus!

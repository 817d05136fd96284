//! The mathematical model of the machine: one record holding every piece of
//! interpreter state, and the well-formedness predicate that all operations
//! preserve.

use vstd::prelude::*;

verus! {

/// Number of addressable memory bytes.
pub open spec fn mem_size() -> nat {
    4096
}

/// Number of framebuffer cells: 64 columns by 32 rows.
pub open spec fn gfx_size() -> nat {
    2048
}

/// The abstract state of the machine.
///
/// `mem` is the 4096-byte address space, `v` the sixteen 8-bit registers,
/// `i` the index register, `pc` the program counter, `sp` the stack pointer
/// into the sixteen-entry return stack, `delay` and `sound` the two
/// countdown timers, `keys` the sixteen keypad flags, and `gfx` the 64 x 32
/// framebuffer in row-major order (`true` is a lit cell).
#[verifier::ext_equal]
pub ghost struct VmState {
    pub mem: Seq<u8>,
    pub v: Seq<u8>,
    pub i: u16,
    pub pc: u16,
    pub sp: u16,
    pub delay: u8,
    pub sound: u8,
    pub stack: Seq<u16>,
    pub keys: Seq<bool>,
    pub gfx: Seq<bool>,
}

impl VmState {
    /// Well-formedness: every component has its fixed size, the stack
    /// pointer stays within the sixteen-entry stack, and the program
    /// counter, index register and stored return addresses are kept below
    /// the memory size (all effective addresses are reduced modulo 4096;
    /// the base machine leaves out-of-range access undefined, so this
    /// interpreter defines it as toroidal wraparound).
    pub open spec fn wf(self) -> bool {
        &&& self.mem.len() == mem_size()
        &&& self.v.len() == 16
        &&& self.stack.len() == 16
        &&& self.keys.len() == 16
        &&& self.gfx.len() == gfx_size()
        &&& self.sp <= 15
        &&& self.pc < mem_size()
        &&& self.i < mem_size()
        &&& forall|k: int| 0 <= k < 16 ==> self.stack[k] < mem_size()
    }
}

/// A fatal condition detected while executing one instruction.
#[derive(Copy, Clone, Debug, PartialEq, Eq, Structural)]
pub enum VmError {
    /// No handler matched the raw 16-bit word.
    InvalidOpcode(u16),
    /// A subroutine call would push beyond the sixteen-entry stack.
    StackOverflow,
    /// A return was executed with an empty stack.
    StackUnderflow,
}

/// A fatal condition at program-load time: the image does not fit in the
/// memory above the program start address.
#[derive(Copy, Clone, Debug, PartialEq, Eq, Structural)]
pub struct ProgramLoadError;

} // verus!

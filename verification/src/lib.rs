use vstd::prelude::*;

pub mod chip8;
pub mod insn;
pub mod laws;
pub mod state;
pub mod vm;

pub use chip8::{Chip8, SystemClock};
pub use insn::{bcd, decode, nybble, DecodeError, Instruction};
pub use state::{LoadError, StepError};
pub use vm::VirtualMachine;

verus! {

/// Strategy for the blocking wait-for-key instruction: given that no key is
/// pressed yet, return the code of the next key once one is pressed.
pub trait KeyWaitHandler {
    fn wait_key(&mut self) -> u8;
}

/// Notification sink invoked whenever the framebuffer changes.
pub trait DisplayUpdateHandler {
    fn display_updated(&mut self);
}

/// A source of the current time, in nanoseconds.  Injectable so that timer
/// behaviour can be driven deterministically under test.
pub trait Clock {
    fn now_nanos(&mut self) -> u64;
}

/// The crate version.
pub fn version() -> (v: &'static str)
    ensures
        v@ == "0.1.0"@,
{
    "0.1.0"
}

} // verus!

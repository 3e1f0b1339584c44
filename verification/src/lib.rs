//! Interactive core of a tiny freestanding kernel: a bounded scancode queue
//! shared between the keyboard interrupt handler and the shell loop, an
//! in-memory filesystem backing the `ls`/`touch`/`mkdir` commands, and the
//! shell's line editor and command dispatcher.

use vstd::prelude::*;

pub mod keyboard;
pub mod text;
pub mod fs;
pub mod ramfs;
pub mod keydecode;
pub mod shell;

verus! {

/// Exit codes understood by the platform's exit device.
#[derive(Clone, Copy, Debug, PartialEq, Eq, Structural)]
pub enum QemuExitCode {
    Success,
    Failed,
}

impl QemuExitCode {
    /// The 32-bit value the platform expects on its exit port for this code.
    pub open spec fn spec_code(self) -> u32 {
        match self {
            QemuExitCode::Success => 0x10,
            QemuExitCode::Failed => 0x11,
        }
    }

    /// Executable form of `spec_code`.
    pub fn code(self) -> (r: u32)
        ensures
            r == self.spec_code(),
    {
        match self {
            QemuExitCode::Success => 0x10,
            QemuExitCode::Failed => 0x11,
        }
    }
}

} // verus!

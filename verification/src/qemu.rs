//! Exit codes that the kernel reports to QEMU's `isa-debug-exit` device.
use vstd::prelude::*;

verus! {

/// How a test run ended.
#[derive(Debug, Clone, Copy, PartialEq, Eq, Structural)]
pub enum QemuExitCode {
    Success,
    Failed,
}

impl QemuExitCode {
    /// The value written to the exit port: `0x10` for success, `0x11` for failure.
    pub fn code(&self) -> (c: u32)
        ensures
            c == match self {
                QemuExitCode::Success => 0x10u32,
                QemuExitCode::Failed => 0x11u32,
            },
    {
        match self {
            QemuExitCode::Success => 0x10,
            QemuExitCode::Failed => 0x11,
        }
    }
}

} // verus!

//! Requests to the RISC-V Supervisor Binary Interface (SBI), through which the
//! supervisor asks the firmware for privileged operations with `ecall`.
use vstd::prelude::*;

verus! {

pub const SBI_SET_TIMER: usize = 0;
pub const SBI_CONSOLE_PUTCHAR: usize = 1;
pub const SBI_CONSOLE_GETCHAR: usize = 2;
pub const SBI_CLEAR_IPI: usize = 3;
pub const SBI_SEND_IPI: usize = 4;
pub const SBI_REMOTE_FENCE_I: usize = 5;
pub const SBI_REMOTE_SFENCE_VMA: usize = 6;
pub const SBI_REMOTE_SFENCE_VMA_ASID: usize = 7;
pub const SBI_SHUTDOWN: usize = 8;

/// One SBI request: the function number (register a7) and its three
/// arguments (a0, a1, a2).
#[derive(Clone, Copy, Debug, PartialEq, Eq, Structural)]
pub struct SbiCall {
    pub which: usize,
    pub arg0: usize,
    pub arg1: usize,
    pub arg2: usize,
}

/// The request that prints byte `c` on the console.
pub fn console_putchar(c: u8) -> (r: SbiCall)
    ensures
        r == (SbiCall { which: SBI_CONSOLE_PUTCHAR, arg0: c as usize, arg1: 0, arg2: 0 }),
{
    SbiCall { which: SBI_CONSOLE_PUTCHAR, arg0: c as usize, arg1: 0, arg2: 0 }
}

/// The request that reads one byte from the console.
pub fn console_getchar() -> (r: SbiCall)
    ensures
        r == (SbiCall { which: SBI_CONSOLE_GETCHAR, arg0: 0, arg1: 0, arg2: 0 }),
{
    SbiCall { which: SBI_CONSOLE_GETCHAR, arg0: 0, arg1: 0, arg2: 0 }
}

/// The request that powers the machine off.
pub fn shutdown() -> (r: SbiCall)
    ensures
        r == (SbiCall { which: SBI_SHUTDOWN, arg0: 0, arg1: 0, arg2: 0 }),
{
    SbiCall { which: SBI_SHUTDOWN, arg0: 0, arg1: 0, arg2: 0 }
}

/// The request that arms the timer for time `timer`.
pub fn set_timer(timer: usize) -> (r: SbiCall)
    ensures
        r == (SbiCall { which: SBI_SET_TIMER, arg0: timer, arg1: 0, arg2: 0 }),
{
    SbiCall { which: SBI_SET_TIMER, arg0: timer, arg1: 0, arg2: 0 }
}

} // verus!

//! What the kernel does when a user program traps: the decision of each
//! trap, from its cause, and the answer a system call leaves for the user.
//! Reading the control registers, switching tasks and returning to the
//! user are the caller's part.
use vstd::prelude::*;
use crate::error::ErrorNum;
use crate::process::{PCBInner, SignalNum};

verus! {

/// The registers of a user's trap context that handling a trap reads and writes.
#[derive(Clone, Copy, PartialEq, Eq, Structural, Debug)]
pub struct UserRegs {
    pub epc: usize,
    pub a0: usize,
    pub a1: usize,
    pub a2: usize,
    pub a3: usize,
    pub a4: usize,
    pub a5: usize,
    pub a7: usize,
}

/// Why a user program trapped.
#[derive(Clone, Copy, PartialEq, Eq, Structural, Debug)]
pub enum TrapCause {
    /// An `ecall` from user mode: a system call.
    UserEnvCall,
    /// The supervisor timer.
    SupervisorTimer,
    /// A supervisor software interrupt.
    SupervisorSoft,
    /// Any other exception or interrupt.
    Other,
}

/// What the caller is to do next.
#[derive(Clone, Copy, Debug)]
pub enum TrapStep {
    /// Run system call `id` with `args` (interrupts on), then `syscall_return`.
    Syscall(usize, [usize; 6]),
    /// Give the hart to another process.
    Yield,
    /// Write `sip` (the pending software interrupt cleared), then give the hart away.
    ClearSoftThenYield(usize),
    /// Return to the user.
    Resume,
}

/// Handles a trap of the running process `proc`, whose trap context holds
/// `regs`, caused by `cause` at `sepc`, with `sip` pending: the context's
/// `epc` becomes `sepc`; a system call moves it past the `ecall` (4 bytes)
/// and runs the call numbered by `a7` with `a0` to `a5`; the timer gives
/// the hart away; a software interrupt is cleared (bit 1 of `sip`) and the
/// hart given away; anything else sends the process `SIGSEGV` (which must
/// be enabled: the kernel stops otherwise) and returns to it.
pub fn user_trap_step(cause: TrapCause, sepc: usize, sip: usize, regs: &mut UserRegs, proc: &mut PCBInner) -> (r: TrapStep)
    requires
        cause == TrapCause::UserEnvCall ==> sepc + 4 <= usize::MAX,
        cause == TrapCause::Other ==> old(proc).signal_enable@.contains_key(11) && old(proc).signal_enable@[11],
    ensures
        cause == TrapCause::UserEnvCall ==> r == TrapStep::Syscall(
            old(regs).a7,
            [old(regs).a0, old(regs).a1, old(regs).a2, old(regs).a3, old(regs).a4, old(regs).a5],
        ) && *final(regs) == (UserRegs { epc: (sepc + 4) as usize, ..*old(regs) }) && *final(proc) == *old(proc),
        cause == TrapCause::SupervisorTimer ==> r == TrapStep::Yield && *final(regs) == (UserRegs {
            epc: sepc,
            ..*old(regs)
        }) && *final(proc) == *old(proc),
        cause == TrapCause::SupervisorSoft ==> r == TrapStep::ClearSoftThenYield(sip & !2usize) && *final(regs) == (
        UserRegs { epc: sepc, ..*old(regs) }) && *final(proc) == *old(proc),
        cause == TrapCause::Other ==> r == TrapStep::Resume && *final(regs) == (UserRegs {
            epc: sepc,
            ..*old(regs)
        }) && final(proc).pending_signal@ == old(proc).pending_signal@.push(SignalNum::SIGSEGV)
            && final(proc).files@ == old(proc).files@ && final(proc).signal_enable@ == old(proc).signal_enable@,
{
    regs.epc = sepc;
    match cause {
        TrapCause::UserEnvCall => {
            let args = [regs.a0, regs.a1, regs.a2, regs.a3, regs.a4, regs.a5];
            regs.epc = regs.epc + 4;
            TrapStep::Syscall(regs.a7, args)
        },
        TrapCause::SupervisorTimer => TrapStep::Yield,
        TrapCause::SupervisorSoft => TrapStep::ClearSoftThenYield(sip & !2usize),
        TrapCause::Other => {
            let _ = proc.recv_signal(SignalNum::SIGSEGV);
            TrapStep::Resume
        },
    }
}

/// Leaves the answer of a system call in `a0`: its result, or `err_code`,
/// the return code of its error (which `ErrorNum::to_ret` gives).
pub fn syscall_return(regs: &mut UserRegs, res: Result<usize, ErrorNum>, err_code: usize)
    ensures
        *final(regs) == (UserRegs {
            a0: match res {
                Ok(v) => v,
                Err(_) => err_code,
            },
            ..*old(regs)
        }),
{
    match res {
        Ok(v) => {
            regs.a0 = v;
        },
        Err(_) => {
            regs.a0 = err_code;
        },
    }
}

} // verus!

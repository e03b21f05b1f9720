//! Decoding of exceptions: the AArch64 exception syndrome and the x86-64
//! trap vector.

use vstd::prelude::*;

verus! {

/// The kind of access that faulted.
#[derive(Debug, Clone, Copy, PartialEq, Eq, Structural)]
pub enum PageFaultReason {
    Read,
    Write,
}

/// What the synchronous-exception handler does with an exception syndrome.
#[derive(Debug, Clone, Copy, PartialEq, Eq, Structural)]
pub enum SyncKind {
    /// `SVC` from AArch64: system calls are not supported, which is logged.
    Syscall,
    /// A data abort, from a lower exception level or the current one, with
    /// its instruction-specific syndrome.
    DataAbort { iss: u64, is_user: bool },
    /// A `BRK` instruction: ignored.
    Breakpoint,
    /// Anything else: fatal.
    Unhandled { ec: u64, iss: u64 },
}

/// The exception class of a syndrome: bits 26..32.
pub open spec fn esr_ec(esr: u64) -> u64 {
    (esr >> 26) & 0x3f
}

/// The instruction-specific syndrome: bits 0..25.
pub open spec fn esr_iss(esr: u64) -> u64 {
    esr & 0x01ff_ffff
}

/// Classifies a synchronous exception by the class field of its syndrome.
pub fn classify_sync(esr: u64) -> (r: SyncKind)
    ensures
        esr_ec(esr) == 0x15 ==> r == SyncKind::Syscall,
        esr_ec(esr) == 0x24 ==> r == (SyncKind::DataAbort { iss: esr_iss(esr), is_user: true }),
        esr_ec(esr) == 0x25 ==> r == (SyncKind::DataAbort { iss: esr_iss(esr), is_user: false }),
        esr_ec(esr) == 0x3c ==> r == SyncKind::Breakpoint,
        esr_ec(esr) != 0x15 && esr_ec(esr) != 0x24 && esr_ec(esr) != 0x25 && esr_ec(esr) != 0x3c
            ==> r == (SyncKind::Unhandled { ec: esr_ec(esr), iss: esr_iss(esr) }),
{
    let iss = esr & 0x01ff_ffff;
    let ec = (esr >> 26) & 0x3f;
    if ec == 0x15 {
        SyncKind::Syscall
    } else if ec == 0x24 {
        SyncKind::DataAbort { iss, is_user: true }
    } else if ec == 0x25 {
        SyncKind::DataAbort { iss, is_user: false }
    } else if ec == 0x3c {
        SyncKind::Breakpoint
    } else {
        SyncKind::Unhandled { ec, iss }
    }
}

/// The access of a data abort: a write when the write-not-read bit (6) is
/// set and the cache-maintenance bit (8) is not, else a read.
pub fn data_abort_reason(iss: u64) -> (r: PageFaultReason)
    ensures
        r == (if iss & 0x40 != 0 && iss & 0x100 == 0 { PageFaultReason::Write } else { PageFaultReason::Read }),
{
    let wnr = (iss & (1u64 << 6)) != 0;
    let cm = (iss & (1u64 << 8)) != 0;
    assert(1u64 << 6 == 0x40u64) by (bit_vector);
    assert(1u64 << 8 == 0x100u64) by (bit_vector);
    if wnr && !cm {
        PageFaultReason::Write
    } else {
        PageFaultReason::Read
    }
}

/// What the x86-64 trap handler does with a vector.
#[derive(Debug, Clone, Copy, PartialEq, Eq, Structural)]
pub enum TrapKind {
    PageFault,
    Breakpoint,
    GeneralProtection,
    Irq,
    Unhandled,
}

/// Classifies an x86-64 trap by the low byte of its vector.
pub fn classify_trap(vector: u64) -> (r: TrapKind)
    ensures
        r == (if vector % 256 == 14 {
            TrapKind::PageFault
        } else if vector % 256 == 3 {
            TrapKind::Breakpoint
        } else if vector % 256 == 13 {
            TrapKind::GeneralProtection
        } else if vector % 256 >= 0x20 {
            TrapKind::Irq
        } else {
            TrapKind::Unhandled
        }),
{
    let v = (vector & 0xff) as u8;
    assert(vector & 0xff == vector % 256) by (bit_vector);
    if v == 14 {
        TrapKind::PageFault
    } else if v == 3 {
        TrapKind::Breakpoint
    } else if v == 13 {
        TrapKind::GeneralProtection
    } else if v >= 0x20 {
        TrapKind::Irq
    } else {
        TrapKind::Unhandled
    }
}

} // verus!

//! x86-64 4-level page-table entries, and the page-fault error code.

use vstd::prelude::*;

use super::{AccessFlags, CacheConfig, MemConfig};

verus! {

pub const PRESENT: u64 = 0x1;
pub const WRITABLE: u64 = 0x2;
pub const USER_ACCESSIBLE: u64 = 0x4;
pub const WRITE_THROUGH: u64 = 0x8;
pub const NO_CACHE: u64 = 0x10;
pub const HUGE_PAGE: u64 = 0x80;
pub const NO_EXECUTE: u64 = 0x8000_0000_0000_0000;

/// Physical address bits 12..52.
pub const PHYS_ADDR_MASK: u64 = 0x000f_ffff_ffff_f000;

/// A page-table entry.
#[derive(Clone, Copy)]
pub struct Pte(pub u64);

impl Pte {
    /// Whether the present bit is set.
    pub fn valid(&self) -> (r: bool)
        ensures
            r == (self.0 & PRESENT != 0),
    {
        self.0 & PRESENT != 0
    }

    /// The physical address.
    pub fn paddr(&self) -> (r: u64)
        ensures
            r == self.0 & PHYS_ADDR_MASK,
    {
        self.0 & PHYS_ADDR_MASK
    }

    /// Replaces the physical address with the address bits of `paddr`.
    pub fn set_paddr(&mut self, paddr: u64)
        ensures
            final(self).0 == (old(self).0 & !PHYS_ADDR_MASK) | (paddr & PHYS_ADDR_MASK),
    {
        self.0 = (self.0 & !PHYS_ADDR_MASK) | (paddr & PHYS_ADDR_MASK);
    }

    /// Sets or clears the present bit.
    pub fn set_valid(&mut self, valid: bool)
        ensures
            final(self).0 == (if valid { old(self).0 | PRESENT } else { old(self).0 & !PRESENT }),
    {
        if valid {
            self.0 = self.0 | PRESENT;
        } else {
            self.0 = self.0 & !PRESENT;
        }
    }

    /// Whether the entry maps a huge page.
    pub fn is_huge(&self) -> (r: bool)
        ensures
            r == (self.0 & HUGE_PAGE != 0),
    {
        self.0 & HUGE_PAGE != 0
    }

    /// Sets or clears the huge-page bit.
    pub fn set_is_huge(&mut self, is_block: bool)
        ensures
            final(self).0 == (if is_block { old(self).0 | HUGE_PAGE } else { old(self).0 & !HUGE_PAGE }),
    {
        if is_block {
            self.0 = self.0 | HUGE_PAGE;
        } else {
            self.0 = self.0 & !HUGE_PAGE;
        }
    }
}

/// The bits of a new entry for `config`.
pub open spec fn pte_bits(config: MemConfig) -> u64 {
    let f0 = PRESENT;
    let f1 = if config.access.write { f0 | WRITABLE } else { f0 };
    let f2 = if !config.access.execute { f1 | NO_EXECUTE } else { f1 };
    let f3 = if config.access.lower_read || config.access.lower_write || config.access.lower_execute {
        f2 | USER_ACCESSIBLE
    } else {
        f2
    };
    match config.cache {
        CacheConfig::Normal => f3,
        CacheConfig::Device => f3 | NO_CACHE,
        CacheConfig::WriteThrough => f3 | WRITE_THROUGH,
    }
}

/// A new present entry for `config`: writable when the mapping is,
/// no-execute when it is not executable, user-accessible when any user
/// right is granted; device memory is uncached and write-through memory is
/// written through.
pub fn new_pte_with_config(config: MemConfig) -> (r: Pte)
    ensures
        r.0 == pte_bits(config),
        r.0 & PRESENT != 0,
        (r.0 & WRITABLE != 0) == config.access.write,
        (r.0 & NO_EXECUTE != 0) == !config.access.execute,
        (r.0 & USER_ACCESSIBLE != 0) == (config.access.lower_read || config.access.lower_write
            || config.access.lower_execute),
        (r.0 & NO_CACHE != 0) == (config.cache == CacheConfig::Device),
        (r.0 & WRITE_THROUGH != 0) == (config.cache == CacheConfig::WriteThrough),
        r.0 & PHYS_ADDR_MASK == 0,
{
    let mut flags = PRESENT;
    if config.access.write {
        flags = flags | WRITABLE;
    }
    if !config.access.execute {
        flags = flags | NO_EXECUTE;
    }
    if config.access.lower_read || config.access.lower_write || config.access.lower_execute {
        flags = flags | USER_ACCESSIBLE;
    }
    proof {
        let w = config.access.write;
        let x = config.access.execute;
        let user = config.access.lower_read || config.access.lower_write || config.access.lower_execute;
        let dev = config.cache == CacheConfig::Device;
        let wt = config.cache == CacheConfig::WriteThrough;
        let f0 = 1u64;
        let f1: u64 = if w { f0 | 2 } else { f0 };
        let f2: u64 = if !x { f1 | 0x8000_0000_0000_0000 } else { f1 };
        let f3: u64 = if user { f2 | 4 } else { f2 };
        let v: u64 = if dev { f3 | 0x10 } else if wt { f3 | 8 } else { f3 };
        assert(v == pte_bits(config));
        assert({
            &&& v & 1 != 0
            &&& (v & 2 != 0) == w
            &&& (v & 0x8000_0000_0000_0000 != 0) == !x
            &&& (v & 4 != 0) == user
            &&& (v & 0x10 != 0) == dev
            &&& (v & 8 != 0) == wt
            &&& v & 0x000f_ffff_ffff_f000 == 0
        }) by (bit_vector)
            requires
                !(dev && wt),
                f0 == 1u64,
                f1 == if w { f0 | 2u64 } else { f0 },
                f2 == if !x { f1 | 0x8000_0000_0000_0000u64 } else { f1 },
                f3 == if user { f2 | 4u64 } else { f2 },
                v == if dev { f3 | 0x10u64 } else if wt { f3 | 8u64 } else { f3 };
    }
    let flags = match config.cache {
        CacheConfig::Normal => flags,
        CacheConfig::Device => flags | NO_CACHE,
        CacheConfig::WriteThrough => flags | WRITE_THROUGH,
    };
    Pte(flags)
}

/// Law: an entry's physical address reads back as the address bits last
/// set, and setting it leaves every other bit alone.
pub proof fn law_pte_paddr_roundtrip(e: u64, paddr: u64)
    ensures
        ((e & !PHYS_ADDR_MASK) | (paddr & PHYS_ADDR_MASK)) & PHYS_ADDR_MASK == paddr & PHYS_ADDR_MASK,
        ((e & !PHYS_ADDR_MASK) | (paddr & PHYS_ADDR_MASK)) & !PHYS_ADDR_MASK == e & !PHYS_ADDR_MASK,
{
    assert(((e & !0x000f_ffff_ffff_f000u64) | (paddr & 0x000f_ffff_ffff_f000u64)) & 0x000f_ffff_ffff_f000u64
        == paddr & 0x000f_ffff_ffff_f000u64) by (bit_vector);
    assert(((e & !0x000f_ffff_ffff_f000u64) | (paddr & 0x000f_ffff_ffff_f000u64)) & !0x000f_ffff_ffff_f000u64
        == e & !0x000f_ffff_ffff_f000u64) by (bit_vector);
}

/// Page-fault error code bits that `err_code_to_flags` rejects: protection
/// violation, malformed table, protection key, shadow stack, HLAT, SGX and
/// RMP.
pub const PF_RESERVED: u64 = 0x8000_80e9;
/// The fault was caused by a write.
pub const PF_CAUSED_BY_WRITE: u64 = 0x2;
/// The fault happened in user mode.
pub const PF_USER_MODE: u64 = 0x4;
/// The fault was caused by an instruction fetch.
pub const PF_INSTRUCTION_FETCH: u64 = 0x10;

/// The access that a page fault reports: `Err(err_code)` when a rejected
/// bit is set; else a write or a read, readable from user mode for a
/// user-mode fault, executable for an instruction fetch.
pub fn err_code_to_flags(err_code: u64) -> (r: Result<AccessFlags, u64>)
    ensures
        (err_code & PF_RESERVED != 0) ==> r == Err::<AccessFlags, u64>(err_code),
        (err_code & PF_RESERVED == 0) ==> r == Ok::<AccessFlags, u64>(AccessFlags {
            read: err_code & PF_CAUSED_BY_WRITE == 0,
            write: err_code & PF_CAUSED_BY_WRITE != 0,
            execute: err_code & PF_INSTRUCTION_FETCH != 0,
            lower_read: err_code & PF_USER_MODE != 0,
            lower_write: false,
            lower_execute: false,
        }),
{
    if err_code & PF_RESERVED != 0 {
        Err(err_code)
    } else {
        let write = err_code & PF_CAUSED_BY_WRITE != 0;
        Ok(AccessFlags {
            read: !write,
            write,
            execute: err_code & PF_INSTRUCTION_FETCH != 0,
            lower_read: err_code & PF_USER_MODE != 0,
            lower_write: false,
            lower_execute: false,
        })
    }
}

} // verus!

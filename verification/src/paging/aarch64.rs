//! VMSAv8-64 stage-1 descriptors with a 4 KiB granule (AArch64, EL1).

use vstd::prelude::*;

use super::{CacheConfig, MemConfig};
use crate::mem::map::PageTable;

verus! {

/// The descriptor is valid.
pub const VALID: u64 = 0x1;
/// The descriptor points to a next-level table or a 4 KiB page, not a block.
pub const NON_BLOCK: u64 = 0x2;
/// Non-secure output address.
pub const NS: u64 = 0x20;
/// Accessible at EL0.
pub const AP_EL0: u64 = 0x40;
/// Read-only.
pub const AP_RO: u64 = 0x80;
/// Inner shareable (otherwise outer shareable).
pub const INNER: u64 = 0x100;
/// Shareable.
pub const SHAREABLE: u64 = 0x200;
/// Access flag.
pub const AF: u64 = 0x400;
/// Not global.
pub const NG: u64 = 0x800;
/// Part of 16 contiguous entries.
pub const CONTIGUOUS: u64 = 0x10000000000000;
/// Privileged execute-never.
pub const PXN: u64 = 0x20000000000000;
/// Unprivileged execute-never.
pub const UXN: u64 = 0x40000000000000;

/// Output address bits 12..48.
pub const PHYS_ADDR_MASK: u64 = 0x0000_ffff_ffff_f000;
/// Memory-attribute index bits 2..5.
pub const MAIR_MASK: u64 = 0x1c;

/// A translation table entry.
#[derive(Clone, Copy)]
pub struct Pte(pub u64);

impl Pte {
    /// Replaces the memory-attribute index (MAIR slot) with `idx`.
    pub fn set_mair_idx(&mut self, idx: u64)
        requires
            idx < 8,
        ensures
            final(self).0 == (old(self).0 & !MAIR_MASK) | (idx << 2),
    {
        self.0 = self.0 & !MAIR_MASK;
        self.0 = self.0 | (idx << 2);
    }

    /// Whether the entry is valid.
    pub fn valid(&self) -> (r: bool)
        ensures
            r == (self.0 & VALID != 0),
    {
        self.0 & VALID != 0
    }

    /// The output address.
    pub fn paddr(&self) -> (r: u64)
        ensures
            r == self.0 & PHYS_ADDR_MASK,
    {
        self.0 & PHYS_ADDR_MASK
    }

    /// Replaces the output address with the address bits of `paddr`.
    pub fn set_paddr(&mut self, paddr: u64)
        ensures
            final(self).0 == (old(self).0 & !PHYS_ADDR_MASK) | (paddr & PHYS_ADDR_MASK),
    {
        self.0 = self.0 & !PHYS_ADDR_MASK;
        self.0 = self.0 | (paddr & PHYS_ADDR_MASK);
    }

    /// Sets or clears the valid bit.
    pub fn set_valid(&mut self, valid: bool)
        ensures
            final(self).0 == (if valid { old(self).0 | VALID } else { old(self).0 & !VALID }),
    {
        if valid {
            self.0 = self.0 | VALID;
        } else {
            self.0 = self.0 & !VALID;
        }
    }

    /// Whether the entry maps a block (its table bit is clear).
    pub fn is_block(&self) -> (r: bool)
        ensures
            r == (self.0 & NON_BLOCK == 0),
    {
        self.0 & NON_BLOCK == 0
    }

    /// Marks the entry as a block or as a table/page.
    pub fn set_is_block(&mut self, is_block: bool)
        ensures
            final(self).0 == (if is_block { old(self).0 & !NON_BLOCK } else { old(self).0 | NON_BLOCK }),
    {
        if is_block {
            self.0 = self.0 & !NON_BLOCK;
        } else {
            self.0 = self.0 | NON_BLOCK;
        }
    }
}

/// The MAIR slot of a cache policy: device memory in slot 0, normal
/// write-back memory in slot 1, write-through memory in slot 2.
pub open spec fn mair_slot(c: CacheConfig) -> u64 {
    match c {
        CacheConfig::Device => 0,
        CacheConfig::Normal => 1,
        CacheConfig::WriteThrough => 2,
    }
}

/// The attribute bits of a new entry for `config`.
pub open spec fn pte_bits(config: MemConfig) -> u64 {
    let f0 = AF | VALID;
    let f1 = if !config.access.write { f0 | AP_RO } else { f0 };
    let f2 = if !config.access.execute { f1 | PXN } else { f1 };
    let f3 = if config.access.lower_read { f2 | AP_EL0 } else { f2 };
    let f4 = if !config.access.lower_execute { f3 | UXN } else { f3 };
    (f4 & !MAIR_MASK) | (mair_slot(config.cache) << 2)
}

/// A new valid, accessed entry with the rights and cache policy of `config`
/// and no output address.
pub fn new_pte_with_config(config: MemConfig) -> (r: Pte)
    ensures
        r.0 == pte_bits(config),
        r.0 & VALID != 0,
        r.0 & AF != 0,
        r.0 & NON_BLOCK == 0,
        r.0 & PHYS_ADDR_MASK == 0,
        (r.0 & AP_RO != 0) == !config.access.write,
        (r.0 & PXN != 0) == !config.access.execute,
        (r.0 & AP_EL0 != 0) == config.access.lower_read,
        (r.0 & UXN != 0) == !config.access.lower_execute,
        (r.0 & MAIR_MASK) >> 2 == mair_slot(config.cache),
{
    proof {
        let w = config.access.write;
        let x = config.access.execute;
        let lr = config.access.lower_read;
        let lx = config.access.lower_execute;
        let m = mair_slot(config.cache);
        let f0: u64 = AF | VALID;
        let f1: u64 = if !w { f0 | AP_RO } else { f0 };
        let f2: u64 = if !x { f1 | PXN } else { f1 };
        let f3: u64 = if lr { f2 | AP_EL0 } else { f2 };
        let f4: u64 = if !lx { f3 | UXN } else { f3 };
        assert(f0 == 0x401u64) by (bit_vector)
            requires f0 == 0x400u64 | 0x1u64;
        let v = pte_bits(config);
        assert(v == (f4 & !MAIR_MASK) | (m << 2));
        assert({
            &&& v & 0x1 != 0
            &&& v & 0x400 != 0
            &&& v & 0x2 == 0
            &&& v & 0x0000_ffff_ffff_f000u64 == 0
            &&& (v & 0x80 != 0) == !w
            &&& (v & 0x20000000000000u64 != 0) == !x
            &&& (v & 0x40 != 0) == lr
            &&& (v & 0x40000000000000u64 != 0) == !lx
            &&& (v & 0x1c) >> 2 == m
        }) by (bit_vector)
            requires
                m < 3,
                f0 == 0x401u64,
                f1 == if !w { f0 | 0x80u64 } else { f0 },
                f2 == if !x { f1 | 0x20000000000000u64 } else { f1 },
                f3 == if lr { f2 | 0x40u64 } else { f2 },
                f4 == if !lx { f3 | 0x40000000000000u64 } else { f3 },
                v == (f4 & !0x1cu64) | (m << 2);
    }
    let mut flags = AF | VALID;
    if !config.access.write {
        flags = flags | AP_RO;
    }
    if !config.access.execute {
        flags = flags | PXN;
    }
    if config.access.lower_read {
        flags = flags | AP_EL0;
    }
    if !config.access.lower_execute {
        flags = flags | UXN;
    }
    let mut pte = Pte(flags);
    let idx: u64 = match config.cache {
        CacheConfig::Device => 0,
        CacheConfig::Normal => 1,
        CacheConfig::WriteThrough => 2,
    };
    pte.set_mair_idx(idx);
    pte
}

/// Law: an entry's output address reads back as the address bits last set,
/// and setting it leaves every other bit alone.
pub proof fn law_pte_paddr_roundtrip(e: u64, paddr: u64)
    ensures
        ((e & !PHYS_ADDR_MASK) | (paddr & PHYS_ADDR_MASK)) & PHYS_ADDR_MASK == paddr & PHYS_ADDR_MASK,
        ((e & !PHYS_ADDR_MASK) | (paddr & PHYS_ADDR_MASK)) & !PHYS_ADDR_MASK == e & !PHYS_ADDR_MASK,
{
    assert(((e & !0x0000_ffff_ffff_f000u64) | (paddr & 0x0000_ffff_ffff_f000u64)) & 0x0000_ffff_ffff_f000u64
        == paddr & 0x0000_ffff_ffff_f000u64) by (bit_vector);
    assert(((e & !0x0000_ffff_ffff_f000u64) | (paddr & 0x0000_ffff_ffff_f000u64)) & !0x0000_ffff_ffff_f000u64
        == e & !0x0000_ffff_ffff_f000u64) by (bit_vector);
}

/// Law: the valid and block bits read back as last set, and setting one
/// leaves the other and the output address alone.
pub proof fn law_pte_flag_roundtrip(e: u64, b: bool)
    ensures
        ((if b { e | VALID } else { e & !VALID }) & VALID != 0) == b,
        ((if b { e & !NON_BLOCK } else { e | NON_BLOCK }) & NON_BLOCK == 0) == b,
        (if b { e | VALID } else { e & !VALID }) & PHYS_ADDR_MASK == e & PHYS_ADDR_MASK,
        (if b { e & !NON_BLOCK } else { e | NON_BLOCK }) & PHYS_ADDR_MASK == e & PHYS_ADDR_MASK,
        ((if b { e & !NON_BLOCK } else { e | NON_BLOCK }) & VALID) == e & VALID,
{
    assert((e | 1u64) & 1u64 != 0) by (bit_vector);
    assert((e & !1u64) & 1u64 == 0) by (bit_vector);
    assert((e & !2u64) & 2u64 == 0) by (bit_vector);
    assert((e | 2u64) & 2u64 != 0) by (bit_vector);
    assert((e | 1u64) & 0x0000_ffff_ffff_f000u64 == e & 0x0000_ffff_ffff_f000u64) by (bit_vector);
    assert((e & !1u64) & 0x0000_ffff_ffff_f000u64 == e & 0x0000_ffff_ffff_f000u64) by (bit_vector);
    assert((e | 2u64) & 0x0000_ffff_ffff_f000u64 == e & 0x0000_ffff_ffff_f000u64) by (bit_vector);
    assert((e & !2u64) & 0x0000_ffff_ffff_f000u64 == e & 0x0000_ffff_ffff_f000u64) by (bit_vector);
    assert((e | 2u64) & 1u64 == e & 1u64) by (bit_vector);
    assert((e & !2u64) & 1u64 == e & 1u64) by (bit_vector);
}

/// The kernel page-table root held in a TTBR1_EL1 value: the ASID field
/// (bits 48..64) and the base address field (bits 1..48).
pub fn get_kernal_table(ttbr1: u64) -> (r: PageTable)
    ensures
        r.id == (ttbr1 >> 48) as usize,
        r.addr == (((ttbr1 >> 1) & 0x7fff_ffff_ffff) << 1) as usize,
{
    let id = ttbr1 >> 48;
    let baddr = (ttbr1 >> 1) & 0x7fff_ffff_ffffu64;
    let addr = baddr << 1;
    PageTable { id: id as usize, addr: addr as usize }
}

/// The TTBR1_EL1 value for a kernel page-table root: the ASID field holds
/// the low 16 bits of `id`, and the address is added on top.
pub fn set_kernal_table(tb: PageTable) -> (r: u64)
    requires
        (((tb.id as u64) & 0xffff) << 48) + tb.addr <= u64::MAX,
    ensures
        r == (((tb.id as u64) & 0xffff) << 48) + tb.addr,
{
    let asid = ((tb.id as u64) & 0xffffu64) << 48;
    asid + tb.addr as u64
}

/// The TTBR1_EL1 value that `set_kernal_table` writes.
pub open spec fn ttbr1_of(id: u64, addr: u64) -> u64 {
    (((id & 0xffff) << 48) + addr) as u64
}

/// Law: writing a table root into TTBR1_EL1 and reading it back gives the
/// root again when its ASID fits in 16 bits and its address is even and
/// below 2^48.
pub proof fn law_kernal_table_roundtrip(id: u64, addr: u64)
    requires
        id < 0x1_0000,
        addr < 0x1_0000_0000_0000,
        addr % 2 == 0,
    ensures
        ((id & 0xffff) << 48) + addr <= u64::MAX,
        ttbr1_of(id, addr) >> 48 == id,
        ((ttbr1_of(id, addr) >> 1) & 0x7fff_ffff_ffff) << 1 == addr,
{
    assert(((id & 0xffff) << 48) + addr <= u64::MAX) by (bit_vector)
        requires id < 0x1_0000u64, addr < 0x1_0000_0000_0000u64;
    let v = ttbr1_of(id, addr);
    assert(v >> 48 == id) by (bit_vector)
        requires id < 0x1_0000u64, addr < 0x1_0000_0000_0000u64, v == (((id & 0xffff) << 48) + addr) as u64;
    assert(((v >> 1) & 0x7fff_ffff_ffffu64) << 1 == addr) by (bit_vector)
        requires id < 0x1_0000u64, addr < 0x1_0000_0000_0000u64, addr % 2 == 0, v == (((id & 0xffff) << 48) + addr) as u64;
}

} // verus!

//! Sv39/Sv48 page-table entries (RISC-V supervisor mode).

use vstd::prelude::*;

use super::MemConfig;

verus! {

/// Valid.
pub const V: u64 = 0x1;
/// Readable.
pub const R: u64 = 0x2;
/// Writable.
pub const W: u64 = 0x4;
/// Executable.
pub const X: u64 = 0x8;
/// Accessible to user mode.
pub const U: u64 = 0x10;
/// Global mapping.
pub const G: u64 = 0x20;
/// Accessed.
pub const A: u64 = 0x40;
/// Dirty.
pub const D: u64 = 0x80;

/// The low 44 bits: the width of a physical page number.
pub const PPN_MASK: u64 = 0xfff_ffff_ffff;

/// A page-table entry.
#[derive(Clone, Copy)]
pub struct Pte(pub u64);

impl Pte {
    /// Whether the entry is valid.
    pub fn valid(&self) -> (r: bool)
        ensures
            r == (self.0 & V != 0),
    {
        self.0 & V != 0
    }

    /// The 44 bits above the ten flag bits.
    pub fn paddr(&self) -> (r: u64)
        ensures
            r == (self.0 >> 10) & PPN_MASK,
    {
        (self.0 >> 10) & PPN_MASK
    }

    /// Clears the low 44 bits of the entry and ors in `paddr` shifted up by
    /// ten bits (the bits shifted out are lost).
    pub fn set_paddr(&mut self, paddr: u64)
        ensures
            final(self).0 == (old(self).0 & !PPN_MASK) | (paddr << 10),
    {
        self.0 = (self.0 & !PPN_MASK) | (paddr << 10);
    }

    /// Sets or clears the valid bit.
    pub fn set_valid(&mut self, valid: bool)
        ensures
            final(self).0 == (if valid { old(self).0 | V } else { old(self).0 & !V }),
    {
        if valid {
            self.0 = self.0 | V;
        } else {
            self.0 = self.0 & !V;
        }
    }

    /// Whether any of the read, write and execute bits is set.
    pub fn is_block(&self) -> (r: bool)
        ensures
            r == (self.0 & 0xe != 0),
    {
        assert(R | W | X == 0xeu64) by (bit_vector);
        self.0 & (R | W | X) != 0
    }

    /// Makes the entry a leaf (a block) or a pointer to the next table: a
    /// leaf gets the read bit, a pointer loses the read, write and execute
    /// bits.
    pub fn set_is_block(&mut self, is_block: bool)
        ensures
            final(self).0 == (if is_block { old(self).0 | R } else { old(self).0 & !0xeu64 }),
    {
        assert(R | W | X == 0xeu64) by (bit_vector);
        if is_block {
            self.0 = self.0 | R;
        } else {
            self.0 = self.0 & !(R | W | X);
        }
    }
}

/// `m` where `b` holds, else no bits.
pub open spec fn bits_if(b: bool, m: u64) -> u64 {
    if b { m } else { 0 }
}

/// Whether a mapping with `config` is reachable from user mode.
pub open spec fn user_access(config: MemConfig) -> bool {
    config.access.lower_read || config.access.lower_write || config.access.lower_execute
}

/// The bits of a new entry for `config`.
pub open spec fn pte_bits(config: MemConfig) -> u64 {
    V | A | D | bits_if(config.access.read, R) | bits_if(config.access.write, W)
        | bits_if(config.access.execute, X) | bits_if(user_access(config), U)
}

/// A new entry for `config`: valid, accessed and dirty; readable, writable
/// and executable as the access flags say, and accessible to user mode when
/// any of the lower-level access flags is set.
pub fn new_pte_with_config(config: MemConfig) -> (r: Pte)
    ensures
        r.0 == pte_bits(config),
        r.0 & V != 0,
        r.0 & A != 0,
        r.0 & D != 0,
        (r.0 & R != 0) == config.access.read,
        (r.0 & W != 0) == config.access.write,
        (r.0 & X != 0) == config.access.execute,
        (r.0 & U != 0) == user_access(config),
        r.0 & G == 0,
{
    let rd = config.access.read;
    let wr = config.access.write;
    let ex = config.access.execute;
    let us = config.access.lower_read || config.access.lower_write || config.access.lower_execute;
    let br: u64 = if rd { R } else { 0 };
    let bw: u64 = if wr { W } else { 0 };
    let bx: u64 = if ex { X } else { 0 };
    let bu: u64 = if us { U } else { 0 };
    let flags = V | D | A | br | bw | bx | bu;
    proof {
        assert({
            &&& flags == 0xc1u64 | br | bw | bx | bu
            &&& flags & 1 != 0
            &&& flags & 0x40 != 0
            &&& flags & 0x80 != 0
            &&& (flags & 2 != 0) == rd
            &&& (flags & 4 != 0) == wr
            &&& (flags & 8 != 0) == ex
            &&& (flags & 0x10 != 0) == us
            &&& flags & 0x20 == 0
        }) by (bit_vector)
            requires
                br == if rd { 2u64 } else { 0u64 },
                bw == if wr { 4u64 } else { 0u64 },
                bx == if ex { 8u64 } else { 0u64 },
                bu == if us { 0x10u64 } else { 0u64 },
                flags == 1u64 | 0x80u64 | 0x40u64 | br | bw | bx | bu;
        assert(V | A | D == 0xc1u64) by (bit_vector);
    }
    Pte(flags)
}

/// Law: an address set into an entry reads back as its low 44 bits when the
/// entry's bits 44..54 are clear; setting an address clears the flag bits.
pub proof fn law_pte_paddr_roundtrip(e: u64, paddr: u64)
    ensures
        e & 0x003f_f000_0000_0000 == 0 ==> (((e & !PPN_MASK) | (paddr << 10)) >> 10) & PPN_MASK == paddr & PPN_MASK,
        ((e & !PPN_MASK) | (paddr << 10)) & 0x3ff == 0,
{
    assert(e & 0x003f_f000_0000_0000u64 == 0 ==> (((e & !0xfff_ffff_ffffu64) | (paddr << 10)) >> 10) & 0xfff_ffff_ffffu64
        == paddr & 0xfff_ffff_ffffu64) by (bit_vector);
    assert(((e & !0xfff_ffff_ffffu64) | (paddr << 10)) & 0x3ffu64 == 0) by (bit_vector);
}

/// Law: whether an entry is a block reads back as last set, and setting it
/// leaves every bit but the read, write and execute bits alone.
pub proof fn law_pte_block_roundtrip(e: u64, b: bool)
    ensures
        ((if b { e | R } else { e & !0xeu64 }) & 0xe != 0) == b,
        (if b { e | R } else { e & !0xeu64 }) & !0xeu64 == e & !0xeu64,
{
    assert((e | 2u64) & 0xeu64 != 0 && (e & !0xeu64) & 0xeu64 == 0 && (e & !0xeu64) & !0xeu64 == e & !0xeu64
        && (e | 2u64) & !0xeu64 == e & !0xeu64) by (bit_vector);
}

} // verus!

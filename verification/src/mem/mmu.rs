//! Translation table entries of the kernel page table (AArch64, 4 KiB
//! granule, 48-bit output addresses), built from the mapping requests.
//!
//! An entry is held as its raw 64-bit value; the field updates are made by
//! `aarch64_cpu_ext`'s `TTE4K48`.

use vstd::prelude::*;

use aarch64_cpu_ext::structures::tte::{AccessPermission, Shareability, TTE4K48};

use super::map::{AccessKind, MapRangeConfig};

verus! {

/// The valid bit.
pub const TTE_VALID: u64 = 0x1;
/// The type bit: set for a table (or page) entry, clear for a block.
pub const TTE_TABLE: u64 = 0x2;
/// The memory-attribute index field, bits 2..5.
pub const TTE_ATTR_INDX: u64 = 0x1c;
/// The access-permission field, bits 6..8.
pub const TTE_AP: u64 = 0xc0;
/// The shareability field, bits 8..10.
pub const TTE_SH: u64 = 0x300;
/// The access flag.
pub const TTE_AF: u64 = 0x400;
/// The output-address field, bits 12..=49.
pub const TTE_ADDR: u64 = 0x3_ffff_ffff_f000;
/// The bits that `address` reads: 12..=48.
pub const TTE_ADDR_READ: u64 = 0x1_ffff_ffff_f000;
/// Execute-never (unprivileged execute-never), bit 54.
pub const TTE_XN: u64 = 0x40_0000_0000_0000;

/// The shareability of a mapping.
#[derive(Debug, Clone, Copy, PartialEq, Eq, Structural)]
pub enum Share {
    NonShareable,
    OuterShareable,
    InnerShareable,
}

/// The access permission of a mapping (AP[2:1]).
#[derive(Debug, Clone, Copy, PartialEq, Eq, Structural)]
pub enum Permission {
    PrivilegedReadWrite,
    ReadWrite,
    PrivilegedReadOnly,
    ReadOnly,
}

/// The value of the SH field for `s`.
pub open spec fn share_bits(s: Share) -> u64 {
    match s {
        Share::NonShareable => 0,
        Share::OuterShareable => 2,
        Share::InnerShareable => 3,
    }
}

/// The value of the AP field for `p`.
pub open spec fn permission_bits(p: Permission) -> u64 {
    match p {
        Permission::PrivilegedReadWrite => 0,
        Permission::ReadWrite => 1,
        Permission::PrivilegedReadOnly => 2,
        Permission::ReadOnly => 3,
    }
}

/// A table entry for address 0: `TTE4K48::new_table(0)` sets VALID, the
/// table type bit and the access flag (0x403), and writes the address field
/// with 0.
#[verifier::external_body]
fn tte_new_table_zero() -> (r: u64)
    ensures
        r == 0x403,
{
    TTE4K48::new_table(0).get()
}

/// `TTE4K48::set_is_valid`: sets or clears bit 0 and keeps the others.
#[verifier::external_body]
fn tte_set_is_valid(raw: u64, val: bool) -> (r: u64)
    ensures
        r == (if val { raw | TTE_VALID } else { raw & !TTE_VALID }),
{
    let mut t = TTE4K48::new(raw);
    t.set_is_valid(val);
    t.get()
}

/// `TTE4K48::set_access`: sets the access flag, bit 10.
#[verifier::external_body]
fn tte_set_access(raw: u64) -> (r: u64)
    ensures
        r == raw | TTE_AF,
{
    let mut t = TTE4K48::new(raw);
    t.set_access();
    t.get()
}

/// `TTE4K48::set_shareability`: writes the SH field (bits 8..10) with
/// 0b00, 0b10 or 0b11 and keeps the other bits.
#[verifier::external_body]
fn tte_set_shareability(raw: u64, s: Share) -> (r: u64)
    ensures
        r == (raw & !TTE_SH) | (share_bits(s) << 8),
{
    let mut t = TTE4K48::new(raw);
    t.set_shareability(match s {
        Share::NonShareable => Shareability::NonShareable,
        Share::OuterShareable => Shareability::OuterShareable,
        Share::InnerShareable => Shareability::InnerShareable,
    });
    t.get()
}

/// `TTE4K48::set_access_permission`: writes the AP field (bits 6..8) with
/// the permission's two bits and keeps the other bits.
#[verifier::external_body]
fn tte_set_access_permission(raw: u64, p: Permission) -> (r: u64)
    ensures
        r == (raw & !TTE_AP) | (permission_bits(p) << 6),
{
    let mut t = TTE4K48::new(raw);
    t.set_access_permission(match p {
        Permission::PrivilegedReadWrite => AccessPermission::PrivilegedReadWrite,
        Permission::ReadWrite => AccessPermission::ReadWrite,
        Permission::PrivilegedReadOnly => AccessPermission::PrivilegedReadOnly,
        Permission::ReadOnly => AccessPermission::ReadOnly,
    });
    t.get()
}

/// `TTE4K48::set_attr_index`: writes the ATTR_INDX field (bits 2..5). It
/// asserts `index < 8`, which is required here.
#[verifier::external_body]
fn tte_set_attr_index(raw: u64, index: u64) -> (r: u64)
    requires
        index < 8,
    ensures
        r == (raw & !TTE_ATTR_INDX) | (index << 2),
{
    let mut t = TTE4K48::new(raw);
    t.set_attr_index(index);
    t.get()
}

/// `TTE4K48::set_executable`: clears bit 54 (execute-never) when `val`,
/// sets it otherwise.
#[verifier::external_body]
fn tte_set_executable(raw: u64, val: bool) -> (r: u64)
    ensures
        r == (if val { raw & !TTE_XN } else { raw | TTE_XN }),
{
    let mut t = TTE4K48::new(raw);
    t.set_executable(val);
    t.get()
}

/// `TTE4K48::is_valid`: whether bit 0 is set.
#[verifier::external_body]
fn tte_is_valid(raw: u64) -> (r: bool)
    ensures
        r == (raw & TTE_VALID != 0),
{
    TTE4K48::new(raw).is_valid()
}

/// `TTE4K48::address`: 0 for an invalid entry, else bits 12..=48 of the
/// entry.
#[verifier::external_body]
fn tte_address(raw: u64) -> (r: u64)
    ensures
        r == (if raw & TTE_VALID == 0 { 0 } else { raw & TTE_ADDR_READ }),
{
    TTE4K48::new(raw).address()
}

/// `TTE4K48::set_address`: writes `addr >> 12` into the address field
/// (bits 12..=49). It asserts that `addr` is 4 KiB aligned and below 2^48,
/// which is required here.
#[verifier::external_body]
fn tte_set_address(raw: u64, addr: u64) -> (r: u64)
    requires
        addr & 0xfff == 0,
        addr < 0x1_0000_0000_0000,
    ensures
        r == (raw & !TTE_ADDR) | addr,
{
    let mut t = TTE4K48::new(raw);
    t.set_address(addr);
    t.get()
}

/// `TTE4K48::is_block`: valid with the type bit clear.
#[verifier::external_body]
fn tte_is_block(raw: u64) -> (r: bool)
    ensures
        r == (raw & TTE_VALID != 0 && raw & TTE_TABLE == 0),
{
    TTE4K48::new(raw).is_block()
}

/// `TTE4K48::set_is_block`: clears the type bit.
#[verifier::external_body]
fn tte_set_is_block(raw: u64) -> (r: u64)
    ensures
        r == raw & !TTE_TABLE,
{
    let mut t = TTE4K48::new(raw);
    t.set_is_block();
    t.get()
}

/// `TTE4K48::set_is_table`: sets the type bit.
#[verifier::external_body]
fn tte_set_is_table(raw: u64) -> (r: u64)
    ensures
        r == raw | TTE_TABLE,
{
    let mut t = TTE4K48::new(raw);
    t.set_is_table();
    t.get()
}

/// The permission that a mapping's rights give: read-only for the rights
/// without write, read-write for those with it (execution is a separate bit).
pub fn access_permission(kind: AccessKind) -> (r: Permission)
    ensures
        r == (match kind {
            AccessKind::Read | AccessKind::ReadExecute => Permission::ReadOnly,
            AccessKind::ReadWrite | AccessKind::ReadWriteExecute => Permission::ReadWrite,
        }),
{
    match kind {
        AccessKind::Read => Permission::ReadOnly,
        AccessKind::ReadWrite => Permission::ReadWrite,
        AccessKind::ReadExecute => Permission::ReadOnly,
        AccessKind::ReadWriteExecute => Permission::ReadWrite,
    }
}

/// The raw value of the entry that maps `config` with memory attributes
/// from MAIR slot `attr_index`: valid, table type, accessed (0x403), shareable
/// inner or not at all, with the permission of its rights, and
/// execute-never unless the rights include execution.
pub open spec fn tte_bits(config: MapRangeConfig, attr_index: u64) -> u64 {
    let sh: u64 = if config.cpu_share { 3 } else { 0 };
    let ap: u64 = permission_bits(
        match config.access {
            AccessKind::Read | AccessKind::ReadExecute => Permission::ReadOnly,
            AccessKind::ReadWrite | AccessKind::ReadWriteExecute => Permission::ReadWrite,
        },
    );
    let xn: u64 = match config.access {
        AccessKind::Read | AccessKind::ReadWrite => TTE_XN,
        _ => 0,
    };
    0x403u64 | (sh << 8) | (ap << 6) | (attr_index << 2) | xn
}

/// A translation table entry.
#[derive(Clone, Copy)]
pub struct Tte(pub u64);

impl Tte {
    /// A valid, accessed, inner-shareable table entry with no address
    /// (valid, table, SH = 0b11 and access flag: 0x703).
    pub fn empty() -> (r: Tte)
        ensures
            r.0 == 0x703,
    {
        let raw = tte_new_table_zero();
        let raw = tte_set_is_valid(raw, true);
        let raw = tte_set_access(raw);
        let raw = tte_set_shareability(raw, Share::InnerShareable);
        assert(raw == 0x703u64) by (bit_vector)
            requires
                raw == ((((0x403u64 | 1u64) | 0x400u64) & !0x300u64) | (3u64 << 8u64));
        Tte(raw)
    }

    /// The entry for `config`, whose cache policy selects MAIR slot
    /// `attr_index`.
    pub fn from_config(config: MapRangeConfig, attr_index: u64) -> (r: Tte)
        requires
            attr_index < 8,
        ensures
            r.0 == tte_bits(config, attr_index),
    {
        let mut raw = Tte::empty().0;
        raw = tte_set_is_valid(raw, true);
        raw = tte_set_access(raw);
        let share = if config.cpu_share { Share::InnerShareable } else { Share::NonShareable };
        raw = tte_set_shareability(raw, share);
        let perm = access_permission(config.access);
        raw = tte_set_access_permission(raw, perm);
        raw = tte_set_attr_index(raw, attr_index);
        match config.access {
            AccessKind::Read | AccessKind::ReadWrite => {
                raw = tte_set_executable(raw, false);
            },
            _ => {},
        }
        proof {
            let sh = share_bits(share);
            let ap = permission_bits(perm);
            let x = config.access is Read || config.access is ReadWrite;
            lemma_tte_from_config(sh, ap, attr_index, x, raw);
        }
        Tte(raw)
    }

    /// Whether the entry is valid.
    pub fn valid(&self) -> (r: bool)
        ensures
            r == (self.0 & TTE_VALID != 0),
    {
        tte_is_valid(self.0)
    }

    /// The output address: 0 for an invalid entry, else bits 12..=48.
    pub fn paddr(&self) -> (r: u64)
        ensures
            r == (if self.0 & TTE_VALID == 0 { 0 } else { self.0 & TTE_ADDR_READ }),
    {
        tte_address(self.0)
    }

    /// Replaces the output address with the 4 KiB aligned `paddr`.
    pub fn set_paddr(&mut self, paddr: u64)
        requires
            paddr & 0xfff == 0,
            paddr < 0x1_0000_0000_0000,
        ensures
            final(self).0 == (old(self).0 & !TTE_ADDR) | paddr,
    {
        self.0 = tte_set_address(self.0, paddr);
    }

    /// Marks the entry valid or invalid.
    pub fn set_valid(&mut self, valid: bool)
        ensures
            final(self).0 == (if valid { old(self).0 | TTE_VALID } else { old(self).0 & !TTE_VALID }),
    {
        self.0 = tte_set_is_valid(self.0, valid);
    }

    /// Whether the entry is a valid block entry.
    pub fn is_huge(&self) -> (r: bool)
        ensures
            r == (self.0 & TTE_VALID != 0 && self.0 & TTE_TABLE == 0),
    {
        tte_is_block(self.0)
    }

    /// Makes the entry a block entry, or a table entry.
    pub fn set_is_huge(&mut self, is_block: bool)
        ensures
            final(self).0 == (if is_block { old(self).0 & !TTE_TABLE } else { old(self).0 | TTE_TABLE }),
    {
        if is_block {
            self.0 = tte_set_is_block(self.0);
        } else {
            self.0 = tte_set_is_table(self.0);
        }
    }
}

proof fn lemma_tte_from_config(sh: u64, ap: u64, idx: u64, xn: bool, raw: u64)
    by (bit_vector)
    requires
        sh < 4,
        ap < 4,
        idx < 8,
        ({
            let r0 = ((((0x703u64 | 1u64) | 0x400u64) & !0x300u64) | (sh << 8u64));
            let r1 = (r0 & !0xc0u64) | (ap << 6u64);
            let r2 = (r1 & !0x1cu64) | (idx << 2u64);
            raw == if xn { r2 | 0x40_0000_0000_0000u64 } else { r2 }
        }),
    ensures
        raw == 0x403u64 | (sh << 8u64) | (ap << 6u64) | (idx << 2u64)
            | (if xn { 0x40_0000_0000_0000u64 } else { 0u64 }),
{
}

/// Setting an entry's output address and reading it back gives the address
/// again, on a valid entry.
pub proof fn law_tte_paddr_roundtrip(raw: u64, paddr: u64)
    requires
        raw & TTE_VALID != 0,
        paddr & 0xfff == 0,
        paddr < 0x1_0000_0000_0000,
    ensures
        ((raw & !TTE_ADDR) | paddr) & TTE_VALID != 0,
        ((raw & !TTE_ADDR) | paddr) & TTE_ADDR_READ == paddr,
{
    assert(((raw & !0x3_ffff_ffff_f000u64) | paddr) & 1u64 != 0
        && ((raw & !0x3_ffff_ffff_f000u64) | paddr) & 0x1_ffff_ffff_f000u64 == paddr) by (bit_vector)
        requires
            raw & 1u64 != 0,
            paddr & 0xfffu64 == 0,
            paddr < 0x1_0000_0000_0000u64;
}

} // verus!

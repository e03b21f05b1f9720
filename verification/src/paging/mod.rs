//! Page-table entry formats of the supported architectures.

use vstd::prelude::*;

pub mod aarch64;
pub mod riscv64;
pub mod x86_64;

verus! {

/// Access rights of a memory mapping.
#[derive(Debug, Clone, Copy, PartialEq, Eq, Structural)]
pub struct AccessFlags {
    pub read: bool,
    pub write: bool,
    pub execute: bool,
    /// Readable from the lower (user) privilege level.
    pub lower_read: bool,
    /// Writable from the lower (user) privilege level.
    pub lower_write: bool,
    /// Executable at the lower (user) privilege level.
    pub lower_execute: bool,
}

/// Cache policy of a memory mapping.
#[derive(Debug, Clone, Copy, PartialEq, Eq, Structural)]
pub enum CacheConfig {
    Normal,
    Device,
    WriteThrough,
}

/// Access rights and cache policy of a memory mapping.
#[derive(Debug, Clone, Copy, PartialEq, Eq, Structural)]
pub struct MemConfig {
    pub access: AccessFlags,
    pub cache: CacheConfig,
}

} // verus!

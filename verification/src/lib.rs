use vstd::prelude::*;

pub mod align;
pub mod cache;
pub mod console;
pub mod early_debug;
pub mod efi;
pub mod fdt;
pub mod fdt_layout;
pub mod hvec;
pub mod lazy_static;
pub mod loongarch;
pub mod paging;
pub mod power;
pub mod time;
pub mod trap;
pub mod mem;

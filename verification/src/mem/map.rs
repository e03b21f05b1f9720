//! The address ranges that the kernel maps when it builds its page table.

use vstd::prelude::*;

use core::ops::Range;

use super::merge::{all_wf, law_merge_idempotent, merged, lemma_merge_starts};
use super::{MemoryRegion, ram_and_rsv_conflict, ram_and_rsv_only, ram_or_rsv, region_ram_and_rsv};
use crate::align::align_down;

verus! {

/// The cache policy of a mapping.
#[derive(Debug, Clone, Copy, PartialEq, Eq, Structural)]
pub enum CacheKind {
    Device,
    Normal,
    NoCache,
}

/// The access rights of a mapping.
#[derive(Clone, Copy, PartialEq, Eq, Structural)]
pub enum AccessKind {
    Read,
    ReadWrite,
    ReadExecute,
    ReadWriteExecute,
}

impl AccessKind {
    /// The short form of the rights: `R--`, `RW-`, `R-X` or `RWX`.
    pub fn as_str(&self) -> (r: &'static str)
        ensures
            r@ == (match *self {
                AccessKind::Read => "R--"@,
                AccessKind::ReadWrite => "RW-"@,
                AccessKind::ReadExecute => "R-X"@,
                AccessKind::ReadWriteExecute => "RWX"@,
            }),
    {
        match self {
            AccessKind::Read => "R--",
            AccessKind::ReadWrite => "RW-",
            AccessKind::ReadExecute => "R-X",
            AccessKind::ReadWriteExecute => "RWX",
        }
    }
}

/// One range to map: `size` bytes from physical `paddr` at virtual `vaddr`.
#[derive(Clone, Copy)]
pub struct MapRangeConfig {
    pub vaddr: usize,
    pub paddr: usize,
    pub size: usize,
    pub name: &'static str,
    pub cache: CacheKind,
    pub access: AccessKind,
    pub cpu_share: bool,
}

/// A page table root with its address-space id.
#[derive(Debug, Clone, Copy, PartialEq, Eq, Structural)]
pub struct PageTable {
    pub id: usize,
    pub addr: usize,
}

/// Where the kernel was loaded and linked, as the boot code knows it.
pub struct BootLayout {
    /// Virtual minus physical address of the kernel image.
    pub kcode_offset: usize,
    /// Virtual minus physical address of the linear map.
    pub kliner_offset: usize,
    pub page_size: usize,
    /// Physical address at which the kernel image starts.
    pub kimage_start_lma: usize,
    /// Virtual address of the end of the kernel code (`__kernel_code_end`).
    pub kernel_code_end: usize,
    /// Physical base of the debug console, when there is one.
    pub debug_console: Option<usize>,
    /// Virtual ranges of the linker sections.
    pub text: Range<usize>,
    pub rodata: Range<usize>,
    pub data: Range<usize>,
    pub bss: Range<usize>,
    pub stack0: Range<usize>,
    /// Physical range of the secondary CPUs' stacks.
    pub percpu_stack: Range<usize>,
}

/// Physical address `p` lies in the kernel image.
pub open spec fn in_kimage(p: usize, l: BootLayout) -> bool {
    l.kimage_start_lma <= p && p < l.kernel_code_end - l.kcode_offset
}

/// The virtual address of physical `p`: inside the kernel image it is offset
/// by the image offset, elsewhere by the linear-map offset.
pub open spec fn phys_to_virt_spec(p: usize, l: BootLayout) -> int {
    if in_kimage(p, l) {
        p + l.kcode_offset
    } else {
        p + l.kliner_offset
    }
}

/// `phys_to_virt` does not overflow at `p`.
pub open spec fn virt_ok(p: usize, l: BootLayout) -> bool {
    phys_to_virt_spec(p, l) <= usize::MAX
}

/// The physical range of the kernel image.
pub fn kimage_range_phys(layout: &BootLayout) -> (r: Range<usize>)
    requires
        layout.kernel_code_end >= layout.kcode_offset,
    ensures
        r.start == layout.kimage_start_lma,
        r.end == layout.kernel_code_end - layout.kcode_offset,
{
    let start = layout.kimage_start_lma;
    let end = layout.kernel_code_end - layout.kcode_offset;
    start..end
}

/// The virtual address at which physical address `p` is mapped.
pub fn phys_to_virt(p: usize, layout: &BootLayout) -> (r: usize)
    requires
        layout.kernel_code_end >= layout.kcode_offset,
        virt_ok(p, *layout),
    ensures
        r == phys_to_virt_spec(p, *layout),
{
    let range = kimage_range_phys(layout);
    if range.start <= p && p < range.end {
        p + layout.kcode_offset
    } else {
        p + layout.kliner_offset
    }
}

/// The mapping of a device range: `size` bytes of device memory at
/// physical `phys`, readable and writable, at the address that
/// `phys_to_virt` gives.
pub fn iomap(phys: usize, size: usize, layout: &BootLayout) -> (r: MapRangeConfig)
    requires
        layout.kernel_code_end >= layout.kcode_offset,
        virt_ok(phys, *layout),
    ensures
        r == (MapRangeConfig {
            vaddr: phys_to_virt_spec(phys, *layout) as usize,
            paddr: phys,
            size,
            name: "iomap",
            cache: CacheKind::Device,
            access: AccessKind::ReadWrite,
            cpu_share: false,
        }),
{
    let vaddr = phys_to_virt(phys, layout);
    MapRangeConfig {
        vaddr,
        paddr: phys,
        size,
        name: "iomap",
        cache: CacheKind::Device,
        access: AccessKind::ReadWrite,
        cpu_share: false,
    }
}

/// The number of addresses in `r`.
pub open spec fn range_count(r: Range<usize>) -> int {
    if r.end > r.start { r.end - r.start } else { 0 }
}

/// The mapping of a linker section, given by its virtual range.
pub open spec fn ld_config_spec(
    name: &'static str,
    range: Range<usize>,
    cpu_share: bool,
    access: AccessKind,
    kcode_offset: usize,
) -> MapRangeConfig {
    MapRangeConfig {
        vaddr: range.start,
        paddr: (range.start - kcode_offset) as usize,
        size: range_count(range) as usize,
        name,
        cache: CacheKind::Normal,
        access,
        cpu_share,
    }
}

/// The mapping of a linker section, given by its virtual range: normal
/// memory at the physical address that the image offset gives.
pub fn ld_range_to_map_config(
    name: &'static str,
    range: Range<usize>,
    cpu_share: bool,
    access: AccessKind,
    kcode_offset: usize,
) -> (r: MapRangeConfig)
    requires
        range.start >= kcode_offset,
    ensures
        r == ld_config_spec(name, range, cpu_share, access, kcode_offset),
{
    let size = if range.end > range.start { range.end - range.start } else { 0 };
    MapRangeConfig {
        vaddr: range.start,
        paddr: range.start - kcode_offset,
        size,
        name,
        cache: CacheKind::Normal,
        access,
        cpu_share,
    }
}

/// The mapping of a merged RAM or reserved region.
pub open spec fn ram_config(r: MemoryRegion, l: BootLayout) -> MapRangeConfig {
    MapRangeConfig {
        vaddr: phys_to_virt_spec(r.start, l) as usize,
        paddr: r.start,
        size: (r.end - r.start) as usize,
        name: "ram",
        cache: CacheKind::Normal,
        access: AccessKind::ReadWrite,
        cpu_share: true,
    }
}

/// The mapping of the debug console's page.
pub open spec fn debug_config(base: usize, l: BootLayout) -> MapRangeConfig {
    let start = (base - base % l.page_size) as usize;
    MapRangeConfig {
        vaddr: (start + l.kliner_offset) as usize,
        paddr: start,
        size: l.page_size,
        name: "debug-con",
        cache: CacheKind::Device,
        access: AccessKind::ReadWrite,
        cpu_share: true,
    }
}

/// The mapping of the secondary CPUs' stacks.
pub open spec fn percpu_config(l: BootLayout) -> MapRangeConfig {
    MapRangeConfig {
        vaddr: (l.percpu_stack.start + l.kcode_offset) as usize,
        paddr: l.percpu_stack.start,
        size: range_count(l.percpu_stack) as usize,
        name: "percpu-stack",
        cache: CacheKind::Normal,
        access: AccessKind::ReadWriteExecute,
        cpu_share: false,
    }
}

/// Everything the kernel maps: the merged RAM and reserved regions, the
/// debug console, the kernel sections and the secondary CPUs' stacks.
pub open spec fn regions_to_map_spec(s: Seq<MemoryRegion>, l: BootLayout) -> Seq<MapRangeConfig> {
    let rams = merged(ram_or_rsv(s))->0;
    let a = Seq::new(rams.len(), |i: int| ram_config(rams[i], l));
    let b = match l.debug_console {
        Some(base) => a.push(debug_config(base, l)),
        None => a,
    };
    let c = b.push(ld_config_spec("text", l.text, true, AccessKind::ReadExecute, l.kcode_offset))
        .push(ld_config_spec("rodata", l.rodata, true, AccessKind::ReadExecute, l.kcode_offset))
        .push(ld_config_spec("data", l.data, true, AccessKind::ReadWriteExecute, l.kcode_offset))
        .push(ld_config_spec("bss", l.bss, true, AccessKind::ReadWriteExecute, l.kcode_offset))
        .push(ld_config_spec("stack0", l.stack0, false, AccessKind::ReadWriteExecute, l.kcode_offset));
    if l.percpu_stack.start < l.percpu_stack.end {
        c.push(percpu_config(l))
    } else {
        c
    }
}

/// The conditions under which `regions_to_map` neither panics nor
/// overflows.
pub open spec fn regions_to_map_ok(s: Seq<MemoryRegion>, l: BootLayout) -> bool {
    &&& merged(ram_or_rsv(s)) is Some
    &&& all_wf(ram_or_rsv(s))
    &&& l.kernel_code_end >= l.kcode_offset
    &&& l.page_size > 0
    &&& forall|i: int| 0 <= i < ram_or_rsv(s).len() ==> virt_ok((#[trigger] ram_or_rsv(s)[i]).start, l)
    &&& (l.debug_console matches Some(base) ==> base - base % l.page_size + l.kliner_offset <= usize::MAX)
    &&& l.text.start >= l.kcode_offset
    &&& l.rodata.start >= l.kcode_offset
    &&& l.data.start >= l.kcode_offset
    &&& l.bss.start >= l.kcode_offset
    &&& l.stack0.start >= l.kcode_offset
    &&& (l.percpu_stack.start < l.percpu_stack.end ==> l.percpu_stack.start + l.kcode_offset <= usize::MAX)
}

/// Whether `regions` and `layout` can be mapped: the RAM and reserved
/// regions do not conflict, are well formed and have virtual addresses, and
/// no address of the layout overflows.
pub fn regions_to_map_check(regions: &[MemoryRegion], layout: &BootLayout) -> (r: bool)
    ensures
        r == regions_to_map_ok(regions@, *layout),
{
    if ram_and_rsv_conflict(regions) {
        return false;
    }
    if layout.kernel_code_end < layout.kcode_offset || layout.page_size == 0 {
        return false;
    }
    let rs = ram_and_rsv_only(regions);
    let ghost l = *layout;
    let mut i: usize = 0;
    while i < rs.len()
        invariant
            i <= rs.len(),
            rs@ == ram_or_rsv(regions@),
            l == *layout,
            l.kernel_code_end >= l.kcode_offset,
            forall|k: int| 0 <= k < i ==> (#[trigger] rs@[k]).wf() && virt_ok(rs@[k].start, l),
        decreases rs.len() - i,
    {
        let p = rs[i].start;
        if p > rs[i].end {
            assert(!rs@[i as int].wf());
            return false;
        }
        let off = if layout.kimage_start_lma <= p && p < layout.kernel_code_end - layout.kcode_offset {
            layout.kcode_offset
        } else {
            layout.kliner_offset
        };
        if p > usize::MAX - off {
            assert(!virt_ok(rs@[i as int].start, l));
            return false;
        }
        i = i + 1;
    }
    assert(all_wf(ram_or_rsv(regions@)));
    if let Some(base) = layout.debug_console {
        let ps = layout.page_size;
        assert(base % ps <= base) by (nonlinear_arith)
            requires
                ps > 0;
        let start = base - base % ps;
        if start > usize::MAX - layout.kliner_offset {
            return false;
        }
    }
    let ko = layout.kcode_offset;
    if layout.text.start < ko || layout.rodata.start < ko || layout.data.start < ko || layout.bss.start < ko
        || layout.stack0.start < ko {
        return false;
    }
    if layout.percpu_stack.start < layout.percpu_stack.end && layout.percpu_stack.start > usize::MAX - ko {
        return false;
    }
    true
}

/// The ranges that the kernel page table maps, as `regions_to_map` gives
/// them; `None` when `regions` and `layout` cannot be mapped.
pub fn try_regions_to_map(regions: &[MemoryRegion], layout: &BootLayout) -> (r: Option<Vec<MapRangeConfig>>)
    ensures
        r is Some <==> regions_to_map_ok(regions@, *layout),
        r matches Some(v) ==> v@ == regions_to_map_spec(regions@, *layout),
{
    if regions_to_map_check(regions, layout) {
        Some(regions_to_map(regions, layout))
    } else {
        None
    }
}

/// The ranges that the kernel page table maps.
pub fn regions_to_map(regions: &[MemoryRegion], layout: &BootLayout) -> (r: Vec<MapRangeConfig>)
    requires
        regions_to_map_ok(regions@, *layout),
    ensures
        r@ == regions_to_map_spec(regions@, *layout),
{
    let mut map_ranges: Vec<MapRangeConfig> = Vec::new();
    let rams = region_ram_and_rsv(regions);
    proof {
        law_merge_idempotent(ram_or_rsv(regions@));
        lemma_merge_starts(ram_or_rsv(regions@));
    }
    let ghost l = *layout;
    let mut i: usize = 0;
    while i < rams.len()
        invariant
            i <= rams.len(),
            rams@ == merged(ram_or_rsv(regions@))->0,
            all_wf(rams@),
            regions_to_map_ok(regions@, l),
            l == *layout,
            forall|k: int| 0 <= k < rams.len() ==> exists|j: int| 0 <= j < ram_or_rsv(regions@).len()
                && (#[trigger] rams@[k]).start == ram_or_rsv(regions@)[j].start,
            map_ranges@ == Seq::new(i as nat, |k: int| ram_config(rams@[k], l)),
        decreases rams.len() - i,
    {
        let region = rams[i];
        proof {
            assert(rams@[i as int].wf());
            let j = choose|j: int| 0 <= j < ram_or_rsv(regions@).len() && rams@[i as int].start == ram_or_rsv(regions@)[j].start;
            assert(virt_ok(ram_or_rsv(regions@)[j].start, l));
        }
        let vaddr = phys_to_virt(region.start, layout);
        map_ranges.push(MapRangeConfig {
            vaddr,
            paddr: region.start,
            size: region.end - region.start,
            name: "ram",
            cache: CacheKind::Normal,
            access: AccessKind::ReadWrite,
            cpu_share: true,
        });
        i = i + 1;
        assert(map_ranges@ =~= Seq::new(i as nat, |k: int| ram_config(rams@[k], l)));
    }
    if let Some(base) = layout.debug_console {
        let start = align_down(base, layout.page_size);
        map_ranges.push(MapRangeConfig {
            vaddr: start + layout.kliner_offset,
            paddr: start,
            size: layout.page_size,
            name: "debug-con",
            cache: CacheKind::Device,
            access: AccessKind::ReadWrite,
            cpu_share: true,
        });
    }
    let ko = layout.kcode_offset;
    map_ranges.push(ld_range_to_map_config("text", layout.text.start..layout.text.end, true, AccessKind::ReadExecute, ko));
    map_ranges.push(ld_range_to_map_config("rodata", layout.rodata.start..layout.rodata.end, true, AccessKind::ReadExecute, ko));
    map_ranges.push(ld_range_to_map_config("data", layout.data.start..layout.data.end, true, AccessKind::ReadWriteExecute, ko));
    map_ranges.push(ld_range_to_map_config("bss", layout.bss.start..layout.bss.end, true, AccessKind::ReadWriteExecute, ko));
    map_ranges.push(ld_range_to_map_config("stack0", layout.stack0.start..layout.stack0.end, false, AccessKind::ReadWriteExecute, ko));
    let ps = &layout.percpu_stack;
    if ps.start < ps.end {
        map_ranges.push(MapRangeConfig {
            vaddr: ps.start + layout.kcode_offset,
            paddr: ps.start,
            size: ps.end - ps.start,
            name: "percpu-stack",
            cache: CacheKind::Normal,
            access: AccessKind::ReadWriteExecute,
            cpu_share: false,
        });
    }
    map_ranges
}

} // verus!

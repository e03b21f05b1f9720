//! Memory-region bookkeeping for the early boot stage.

use vstd::prelude::*;

pub mod merge;
pub mod subtract;
pub mod init;
pub mod map;
pub mod stack;
pub mod mmu;

use crate::hvec::{
    MemoryRegionVec, region_list, region_vec_as_slice, region_vec_clear, region_vec_new,
    region_vec_push,
};
use merge::{merge_sorted_regions, merged, sort_regions, lemma_sort_by_start, lemma_merge_sorted_len};

verus! {

/// The kind of a physical memory region.
#[derive(Debug, Clone, Copy, PartialEq, Eq, Structural)]
pub enum MemoryRegionKind {
    /// Physical memory.
    Ram,
    /// Reserved memory.
    Reserved,
    /// Memory used by the bootloader.
    Bootloader,
    /// An unknown region reported by the UEFI firmware, with its type tag.
    UnknownUefi(u32),
    /// An unknown region reported by the BIOS firmware, with its E820 type.
    UnknownBios(u32),
}

/// A physical memory region `[start, end)`.
#[derive(Debug, Clone, Copy, PartialEq, Eq, Structural)]
pub struct MemoryRegion {
    pub kind: MemoryRegionKind,
    pub start: usize,
    pub end: usize,
}

impl MemoryRegion {
    /// The region covers physical address `a`.
    pub open spec fn covers(self, a: int) -> bool {
        self.start <= a < self.end
    }

    /// `start <= end`.
    pub open spec fn wf(self) -> bool {
        self.start <= self.end
    }
}

/// Copies a slice of regions into a `Vec`.
pub fn copy_regions(s: &[MemoryRegion]) -> (r: Vec<MemoryRegion>)
    ensures
        r@ == s@,
{
    let mut out: Vec<MemoryRegion> = Vec::new();
    let mut i: usize = 0;
    while i < s.len()
        invariant
            i <= s.len(),
            out@ == s@.take(i as int),
        decreases s.len() - i,
    {
        out.push(s[i]);
        i = i + 1;
        assert(out@ =~= s@.take(i as int));
    }
    assert(s@.take(s@.len() as int) =~= s@);
    out
}

/// The number of regions that `v` holds; never more than its capacity, 128.
pub fn region_count(v: &MemoryRegionVec) -> (n: usize)
    ensures
        n == region_list(*v).len(),
        n <= 128,
{
    region_vec_as_slice(v).len()
}

/// Moves the regions out of `regions`, leaving it empty.
pub(crate) fn take_regions(regions: &mut MemoryRegionVec) -> (r: MemoryRegionVec)
    ensures
        region_list(r) == region_list(*old(regions)),
        region_list(*final(regions)) == Seq::<MemoryRegion>::empty(),
{
    let mut empty = region_vec_new();
    core::mem::swap(regions, &mut empty);
    empty
}

/// Appends every region of `items` to `list`, which has room for them.
pub(crate) fn push_all(list: MemoryRegionVec, items: &Vec<MemoryRegion>) -> (r: MemoryRegionVec)
    requires
        region_list(list).len() + items@.len() <= 128,
    ensures
        region_list(r) == region_list(list) + items@,
{
    let ghost start = region_list(list);
    let mut list = list;
    let mut i: usize = 0;
    while i < items.len()
        invariant
            i <= items.len(),
            start.len() + items@.len() <= 128,
            region_list(list) == start + items@.take(i as int),
        decreases items.len() - i,
    {
        let pushed = region_vec_push(list, items[i]);
        list = pushed.list;
        i = i + 1;
        assert(region_list(list) =~= start + items@.take(i as int));
    }
    assert(items@.take(items@.len() as int) =~= items@);
    list
}

/// Sorts the regions by start address, then merges every region that
/// overlaps, or adjoins, the one before it and has the same kind.
///
/// Two overlapping regions of different kinds are a fatal configuration
/// error; the caller rules them out.
pub fn merge_regions(regions: &mut MemoryRegionVec)
    requires
        merged(region_list(*old(regions))) is Some,
    ensures
        region_list(*final(regions)) == merged(region_list(*old(regions)))->0,
{
    let list = take_regions(regions);
    let items = copy_regions(region_vec_as_slice(&list));
    let sorted = sort_regions(&items);
    proof {
        lemma_sort_by_start(items@);
        lemma_merge_sorted_len(sorted@);
    }
    let out = merge_sorted_regions(&sorted);
    let list = region_vec_clear(list);
    *regions = push_all(list, &out);
    assert(region_list(*regions) =~= out@);
}

/// `s` keeps the RAM and reserved regions, in order.
pub open spec fn ram_or_rsv(s: Seq<MemoryRegion>) -> Seq<MemoryRegion>
    decreases s.len(),
{
    if s.len() == 0 {
        s
    } else if s.last().kind is Ram || s.last().kind is Reserved {
        ram_or_rsv(s.drop_last()).push(s.last())
    } else {
        ram_or_rsv(s.drop_last())
    }
}

/// The RAM and reserved regions of `regions`, in order.
pub(crate) fn ram_and_rsv_only(regions: &[MemoryRegion]) -> (r: Vec<MemoryRegion>)
    ensures
        r@ == ram_or_rsv(regions@),
{
    let mut out: Vec<MemoryRegion> = Vec::new();
    let mut i: usize = 0;
    while i < regions.len()
        invariant
            i <= regions.len(),
            out@ == ram_or_rsv(regions@.take(i as int)),
        decreases regions.len() - i,
    {
        let r = regions[i];
        proof {
            assert(regions@.take(i as int + 1).drop_last() =~= regions@.take(i as int));
        }
        match r.kind {
            MemoryRegionKind::Ram | MemoryRegionKind::Reserved => {
                out.push(r);
            },
            _ => {},
        }
        i = i + 1;
    }
    assert(regions@.take(regions@.len() as int) =~= regions@);
    out
}

/// Whether a RAM region and a reserved region of `regions` overlap: the
/// conflict that stops the page-table setup.
pub fn ram_and_rsv_conflict(regions: &[MemoryRegion]) -> (r: bool)
    ensures
        r == (merged(ram_or_rsv(regions@)) is None),
{
    let out = ram_and_rsv_only(regions);
    merge::regions_conflict(out.as_slice())
}

/// The RAM and reserved regions of `regions`, sorted and merged.
///
/// A RAM region that overlaps a reserved one is a fatal conflict; the caller
/// rules it out.
pub fn region_ram_and_rsv(regions: &[MemoryRegion]) -> (r: Vec<MemoryRegion>)
    requires
        merged(ram_or_rsv(regions@)) is Some,
    ensures
        r@ == merged(ram_or_rsv(regions@))->0,
{
    let out = ram_and_rsv_only(regions);
    if out.len() == 0 {
        return out;
    }
    let sorted = sort_regions(&out);
    merge_sorted_regions(&sorted)
}

} // verus!

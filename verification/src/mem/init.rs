//! Building the final memory map from the regions handed over at boot.

use vstd::prelude::*;

use super::merge::{covered, merged};
use super::subtract::{non_ram_ranges, ram_regions, subtracted, cap};
use super::{MemoryRegion, MemoryRegionKind};
use crate::align::{align_up, align_up_spec, is_aligned_to};
use crate::hvec::{
    MemoryRegionVec, region_list, region_vec_as_slice, region_vec_clear, region_vec_extend_from_slice,
    region_vec_new, region_vec_push,
};

verus! {

/// The regions with their ends rounded up to a page, and the start of free
/// memory, which follows the end of the region that it was equal to.
pub open spec fn align_fold(s: Seq<MemoryRegion>, ps: usize, free: usize) -> (Seq<MemoryRegion>, usize)
    decreases s.len(),
{
    if s.len() == 0 {
        (s, free)
    } else {
        let (t, f) = align_fold(s.drop_last(), ps, free);
        let r = s.last();
        if r.end % ps == 0 {
            (t.push(r), f)
        } else {
            let e = align_up_spec(r.end, ps) as usize;
            (t.push(MemoryRegion { end: e, ..r }), if r.end == f { e } else { f })
        }
    }
}

/// No region end overflows when rounded up to a page.
pub open spec fn ends_alignable(s: Seq<MemoryRegion>, ps: usize) -> bool {
    forall|i: int| 0 <= i < s.len() ==> (#[trigger] s[i]).end % ps != 0 ==> s[i].end + ps <= usize::MAX
}

/// The region in which the kernel image was loaded.
pub open spec fn is_main(r: MemoryRegion, lma: usize) -> bool {
    r.kind is Ram && r.start <= lma && r.end > lma
}

/// The first RAM region that contains `lma`.
pub open spec fn find_main_spec(s: Seq<MemoryRegion>, lma: usize) -> Option<MemoryRegion>
    decreases s.len(),
{
    if s.len() == 0 {
        None
    } else if is_main(s[0], lma) {
        Some(s[0])
    } else {
        find_main_spec(s.subrange(1, s.len() as int), lma)
    }
}

/// Some reserved region already contains `[start, end]`.
pub open spec fn rsv_contains(s: Seq<MemoryRegion>, start: usize, end: usize) -> bool {
    exists|i: int| 0 <= i < s.len() && (#[trigger] s[i]).kind is Reserved && s[i].start <= start && s[i].end >= end
}

/// The regions after reserving `[main.start, rsv_end)`, the memory in front
/// of the kernel, and whether the main region was found.
pub open spec fn add_rsv_spec(s: Seq<MemoryRegion>, lma: usize, rsv_end: usize) -> (Seq<MemoryRegion>, Option<()>) {
    match find_main_spec(s, lma) {
        None => (s, None),
        Some(main) => {
            if main.start >= rsv_end || rsv_contains(s, main.start, rsv_end) {
                (s, Some(()))
            } else {
                (cap(s.push(MemoryRegion { kind: MemoryRegionKind::Reserved, start: main.start, end: rsv_end }), 128), Some(()))
            }
        },
    }
}

proof fn lemma_find_main_skip(s: Seq<MemoryRegion>, lma: usize, i: int)
    requires
        0 <= i < s.len(),
        !is_main(s[i], lma),
    ensures
        find_main_spec(s.subrange(i, s.len() as int), lma) == find_main_spec(s.subrange(i + 1, s.len() as int), lma),
{
    let t = s.subrange(i, s.len() as int);
    assert(t[0] == s[i]);
    assert(t.subrange(1, t.len() as int) =~= s.subrange(i + 1, s.len() as int));
}

/// The RAM region that holds the kernel image at `lma`: the first RAM region
/// with `start <= lma < end`.
pub fn find_main(regions: &[MemoryRegion], lma: usize) -> (r: Option<MemoryRegion>)
    ensures
        r == find_main_spec(regions@, lma),
{
    let mut i: usize = 0;
    assert(regions@.subrange(0, regions@.len() as int) =~= regions@);
    while i < regions.len()
        invariant
            i <= regions.len(),
            find_main_spec(regions@, lma) == find_main_spec(regions@.subrange(i as int, regions@.len() as int), lma),
        decreases regions.len() - i,
    {
        let r = regions[i];
        let is_ram = match r.kind {
            MemoryRegionKind::Ram => true,
            _ => false,
        };
        if is_ram && r.start <= lma && r.end > lma {
            assert(regions@.subrange(i as int, regions@.len() as int)[0] == r);
            return Some(r);
        }
        proof {
            lemma_find_main_skip(regions@, lma, i as int);
        }
        i = i + 1;
    }
    None
}

/// Reserves the memory in front of the kernel image, from the start of the
/// main RAM region up to `rsv_end`, unless it is empty or already reserved.
/// Returns `None` when no RAM region holds the kernel image at `lma`.
pub fn add_kernel_reserved(regions: &mut MemoryRegionVec, lma: usize, rsv_end: usize) -> (r: Option<()>)
    requires
        region_list(*old(regions)).len() <= 128,
    ensures
        region_list(*final(regions)) == add_rsv_spec(region_list(*old(regions)), lma, rsv_end).0,
        r == add_rsv_spec(region_list(*old(regions)), lma, rsv_end).1,
{
    let s = region_vec_as_slice(regions);
    let main = find_main(s, lma);
    let mainmem = match main {
        None => return None,
        Some(m) => m,
    };
    let rsv_start = mainmem.start;
    if rsv_start >= rsv_end {
        return Some(());
    }
    let mut i: usize = 0;
    while i < s.len()
        invariant
            i <= s.len(),
            s@ == region_list(*regions),
            *regions == *old(regions),
            find_main_spec(s@, lma) == Some(mainmem),
            rsv_start == mainmem.start,
            rsv_start < rsv_end,
            forall|j: int| 0 <= j < i ==> !((#[trigger] s@[j]).kind is Reserved && s@[j].start <= rsv_start
                && s@[j].end >= rsv_end),
        decreases s.len() - i,
    {
        let r = s[i];
        let is_rsv = match r.kind {
            MemoryRegionKind::Reserved => true,
            _ => false,
        };
        if is_rsv && r.start <= rsv_start && r.end >= rsv_end {
            assert(s@[i as int] == r);
            assert(rsv_contains(s@, rsv_start, rsv_end));
            return Some(());
        }
        i = i + 1;
    }
    let ghost s0 = region_list(*regions);
    assert(!rsv_contains(s0, rsv_start, rsv_end));
    let list = super::take_regions(regions);
    let nw = MemoryRegion { kind: MemoryRegionKind::Reserved, start: rsv_start, end: rsv_end };
    let pushed = region_vec_push(list, nw);
    *regions = pushed.list;
    assert(region_list(*regions) =~= cap(s0.push(nw), 128));
    Some(())
}

/// Law: reserving the memory in front of the kernel leaves every address
/// from the start of the RAM region that holds the kernel (at `lma`) up to
/// `rsv_end` inside a reserved region, and keeps every region it was given,
/// when the list has room for one more region.
pub proof fn law_kernel_front_reserved(s: Seq<MemoryRegion>, lma: usize, rsv_end: usize, a: int)
    requires
        s.len() < 128,
        find_main_spec(s, lma) is Some,
        find_main_spec(s, lma)->0.start <= a < rsv_end,
    ensures
        add_rsv_spec(s, lma, rsv_end).1 == Some(()),
        covered(add_rsv_spec(s, lma, rsv_end).0, MemoryRegionKind::Reserved, a),
        add_rsv_spec(s, lma, rsv_end).0.take(s.len() as int) == s,
        add_rsv_spec(s, lma, rsv_end).0.len() <= s.len() + 1,
        forall|k: int| s.len() <= k < add_rsv_spec(s, lma, rsv_end).0.len() ==> add_rsv_spec(s, lma, rsv_end).0[k] == (
        MemoryRegion { kind: MemoryRegionKind::Reserved, start: find_main_spec(s, lma)->0.start, end: rsv_end }),
        (exists|i: int| 0 <= i < s.len() && (#[trigger] s[i]).kind == MemoryRegionKind::Reserved && s[i].start
            <= find_main_spec(s, lma)->0.start && s[i].end >= rsv_end) ==> add_rsv_spec(s, lma, rsv_end).0 == s,
        !(exists|i: int| 0 <= i < s.len() && (#[trigger] s[i]).kind == MemoryRegionKind::Reserved && s[i].start
            <= find_main_spec(s, lma)->0.start && s[i].end >= rsv_end) ==> add_rsv_spec(s, lma, rsv_end).0.len()
            == s.len() + 1,
{
    let main = find_main_spec(s, lma)->0;
    let r = add_rsv_spec(s, lma, rsv_end).0;
    if rsv_contains(s, main.start, rsv_end) {
        let i = choose|i: int| 0 <= i < s.len() && (#[trigger] s[i]).kind is Reserved && s[i].start <= main.start
            && s[i].end >= rsv_end;
        assert(r[i].kind == MemoryRegionKind::Reserved && r[i].covers(a));
        assert(r.take(s.len() as int) =~= s);
    } else {
        let nw = MemoryRegion { kind: MemoryRegionKind::Reserved, start: main.start, end: rsv_end };
        assert(r == s.push(nw));
        assert(r[s.len() as int] == nw);
        assert(r.take(s.len() as int) =~= s);
    }
}

/// What the region list becomes before the final merge.
pub open spec fn prepared(
    old: Seq<MemoryRegion>,
    args: Seq<MemoryRegion>,
    ps: usize,
    free: usize,
    lma: usize,
    rsv_end: usize,
) -> Seq<MemoryRegion> {
    subtracted(add_rsv_spec(align_fold(old + args, ps, free).0, lma, rsv_end).0)
}

/// The conditions under which the boot-time region setup does not panic:
/// the regions fit the list, their ends can be rounded up to a page, at most
/// 64 non-RAM and 8 RAM regions are to be subtracted, and no two regions of
/// different kinds overlap when merged.
pub open spec fn init_regions_ok(
    old: Seq<MemoryRegion>,
    args: Seq<MemoryRegion>,
    ps: usize,
    free: usize,
    lma: usize,
    rsv_end: usize,
) -> bool {
    let a = align_fold(old + args, ps, free).0;
    let b = add_rsv_spec(a, lma, rsv_end).0;
    &&& ps > 0
    &&& old.len() + args.len() <= 128
    &&& ends_alignable(old + args, ps)
    &&& non_ram_ranges(b).len() <= 64
    &&& ram_regions(b).len() <= 8
    &&& merged(subtracted(b)) is Some
}

proof fn lemma_align_fold_len(s: Seq<MemoryRegion>, ps: usize, free: usize)
    ensures
        align_fold(s, ps, free).0.len() == s.len(),
    decreases s.len(),
{
    if s.len() > 0 {
        lemma_align_fold_len(s.drop_last(), ps, free);
    }
}

/// Rounds every region end up to a page; the start of free memory moves
/// along with the region that ends there. Returns the regions and the new
/// start of free memory.
pub fn align_ends(items: &Vec<MemoryRegion>, page_size: usize, free_memory_start: usize) -> (r: (Vec<MemoryRegion>, usize))
    requires
        page_size > 0,
        ends_alignable(items@, page_size),
    ensures
        (r.0@, r.1) == align_fold(items@, page_size, free_memory_start),
        r.0@.len() == items@.len(),
{
    let ghost s0 = items@;
    let mut aligned: Vec<MemoryRegion> = Vec::new();
    let mut free = free_memory_start;
    let mut i: usize = 0;
    while i < items.len()
        invariant
            i <= items.len(),
            items@ == s0,
            page_size > 0,
            ends_alignable(s0, page_size),
            (aligned@, free) == align_fold(s0.take(i as int), page_size, free_memory_start),
        decreases items.len() - i,
    {
        let region = items[i];
        proof {
            assert(s0.take(i as int + 1).drop_last() =~= s0.take(i as int));
            assert(s0[i as int] == region);
        }
        if !is_aligned_to(region.end, page_size) {
            let is_main = region.end == free;
            let end = align_up(region.end, page_size);
            aligned.push(MemoryRegion { kind: region.kind, start: region.start, end });
            if is_main {
                free = end;
            }
        } else {
            aligned.push(region);
        }
        i = i + 1;
    }
    assert(s0.take(s0.len() as int) =~= s0);
    proof {
        lemma_align_fold_len(s0, page_size, free_memory_start);
    }
    (aligned, free)
}

/// Sets up the memory map: appends the regions handed over at boot, rounds
/// every region end up to a page (moving the start of free memory along with
/// the region that ends there), reserves the memory in front of the kernel
/// image, cuts the non-RAM regions out of the RAM and merges the result.
///
/// Returns the new start of free memory.
pub fn init_regions(
    regions: &mut MemoryRegionVec,
    args_regions: &[MemoryRegion],
    page_size: usize,
    free_memory_start: usize,
    kimage_start_lma: usize,
    rsv_end: usize,
) -> (r: usize)
    requires
        init_regions_ok(region_list(*old(regions)), args_regions@, page_size, free_memory_start, kimage_start_lma, rsv_end),
    ensures
        r == align_fold(region_list(*old(regions)) + args_regions@, page_size, free_memory_start).1,
        region_list(*final(regions)) == merged(
            prepared(region_list(*old(regions)), args_regions@, page_size, free_memory_start, kimage_start_lma, rsv_end),
        )->0,
{
    let ghost s0 = region_list(*regions) + args_regions@;
    let list = super::take_regions(regions);
    let ext = region_vec_extend_from_slice(list, args_regions);
    let list = ext.list;
    let items = super::copy_regions(region_vec_as_slice(&list));
    let (aligned, free) = align_ends(&items, page_size, free_memory_start);
    let list = region_vec_clear(list);
    let mut list = super::push_all(list, &aligned);
    assert(region_list(list) =~= aligned@);
    let _ = add_kernel_reserved(&mut list, kimage_start_lma, rsv_end);
    super::subtract::subtract_non_ram_from_ram(&mut list);
    super::merge_regions(&mut list);
    *regions = list;
    free
}

/// Why the boot-time region setup cannot be done.
#[derive(Debug, Clone, Copy, PartialEq, Eq, Structural)]
pub enum InitError {
    /// The regions handed over at boot do not fit the list.
    RegionsOverflow,
    /// A region end cannot be rounded up to a page.
    EndOverflow,
    /// More than 64 non-RAM regions are to be cut out of the RAM.
    TooManyNonRam,
    /// More than 8 RAM regions are to be cut.
    TooManyRam,
    /// Two regions of different kinds overlap.
    KindConflict,
}

/// Whether every region end can be rounded up to a page.
pub fn check_ends_alignable(items: &[MemoryRegion], page_size: usize) -> (r: bool)
    requires
        page_size > 0,
    ensures
        r == ends_alignable(items@, page_size),
{
    let mut i: usize = 0;
    while i < items.len()
        invariant
            i <= items.len(),
            page_size > 0,
            ends_alignable(items@.take(i as int), page_size),
        decreases items.len() - i,
    {
        let end = items[i].end;
        if end % page_size != 0 && end > usize::MAX - page_size {
            assert(!ends_alignable(items@, page_size)) by {
                assert(items@[i as int].end == end);
            }
            return false;
        }
        i = i + 1;
        assert forall|k: int| 0 <= k < items@.take(i as int).len() && (#[trigger] items@.take(i as int)[k]).end
            % page_size != 0 implies items@.take(i as int)[k].end + page_size <= usize::MAX by {
            if k < i - 1 {
                assert(items@.take(i as int)[k] == items@.take(i - 1)[k]);
            }
        }
    }
    assert(items@.take(items@.len() as int) =~= items@);
    true
}

/// The numbers of non-RAM and of RAM regions in `s`.
pub fn count_non_ram_and_ram(s: &[MemoryRegion]) -> (r: (usize, usize))
    ensures
        r.0 == non_ram_ranges(s@).len(),
        r.1 == ram_regions(s@).len(),
{
    let mut non_ram: usize = 0;
    let mut ram: usize = 0;
    let mut i: usize = 0;
    while i < s.len()
        invariant
            i <= s.len(),
            non_ram == non_ram_ranges(s@.take(i as int)).len(),
            ram == ram_regions(s@.take(i as int)).len(),
            non_ram + ram == i,
        decreases s.len() - i,
    {
        proof {
            assert(s@.take(i as int + 1).drop_last() =~= s@.take(i as int));
        }
        match s[i].kind {
            MemoryRegionKind::Ram => {
                ram = ram + 1;
            },
            _ => {
                non_ram = non_ram + 1;
            },
        }
        i = i + 1;
    }
    assert(s@.take(s@.len() as int) =~= s@);
    (non_ram, ram)
}

/// The first condition of the region setup that fails for these inputs, in
/// the order in which the setup meets them.
pub open spec fn init_regions_error(
    old: Seq<MemoryRegion>,
    args: Seq<MemoryRegion>,
    ps: usize,
    free: usize,
    lma: usize,
    rsv_end: usize,
) -> Option<InitError> {
    let b = add_rsv_spec(align_fold(old + args, ps, free).0, lma, rsv_end).0;
    if old.len() + args.len() > 128 {
        Some(InitError::RegionsOverflow)
    } else if !ends_alignable(old + args, ps) {
        Some(InitError::EndOverflow)
    } else if non_ram_ranges(b).len() > 64 {
        Some(InitError::TooManyNonRam)
    } else if ram_regions(b).len() > 8 {
        Some(InitError::TooManyRam)
    } else if merged(subtracted(b)) is None {
        Some(InitError::KindConflict)
    } else {
        None
    }
}

/// The region setup of `init_regions` for any input: the error where that
/// setup cannot go on, with `regions` unchanged; otherwise the new start of
/// free memory, with `regions` as `init_regions` leaves it.
pub fn try_init_regions(
    regions: &mut MemoryRegionVec,
    args_regions: &[MemoryRegion],
    page_size: usize,
    free_memory_start: usize,
    kimage_start_lma: usize,
    rsv_end: usize,
) -> (r: Result<usize, InitError>)
    requires
        page_size > 0,
    ensures
        ({
            let old_s = region_list(*old(regions));
            let e = init_regions_error(old_s, args_regions@, page_size, free_memory_start, kimage_start_lma, rsv_end);
            &&& e is Some ==> r == Err::<usize, InitError>(e->0) && *final(regions) == *old(regions)
            &&& e is None ==> init_regions_ok(old_s, args_regions@, page_size, free_memory_start, kimage_start_lma, rsv_end)
            &&& e is None ==> r == Ok::<usize, InitError>(align_fold(old_s + args_regions@, page_size, free_memory_start).1)
            &&& e is None ==> region_list(*final(regions)) == merged(
                prepared(old_s, args_regions@, page_size, free_memory_start, kimage_start_lma, rsv_end),
            )->0
        }),
{
    let ghost old_s = region_list(*regions);
    let current = region_vec_as_slice(regions);
    if args_regions.len() > 128 || current.len() > 128 - args_regions.len() {
        return Err(InitError::RegionsOverflow);
    }
    let mut items = super::copy_regions(current);
    let mut i: usize = 0;
    while i < args_regions.len()
        invariant
            i <= args_regions.len(),
            items@ == old_s + args_regions@.take(i as int),
        decreases args_regions.len() - i,
    {
        items.push(args_regions[i]);
        i = i + 1;
        assert(items@ =~= old_s + args_regions@.take(i as int));
    }
    assert(args_regions@.take(args_regions@.len() as int) =~= args_regions@);
    if !check_ends_alignable(items.as_slice(), page_size) {
        return Err(InitError::EndOverflow);
    }
    let (aligned, _free) = align_ends(&items, page_size, free_memory_start);
    let mut list = super::push_all(region_vec_new(), &aligned);
    assert(region_list(list) =~= aligned@);
    let _ = add_kernel_reserved(&mut list, kimage_start_lma, rsv_end);
    let (non_ram, ram) = count_non_ram_and_ram(region_vec_as_slice(&list));
    if non_ram > 64 {
        return Err(InitError::TooManyNonRam);
    }
    if ram > 8 {
        return Err(InitError::TooManyRam);
    }
    super::subtract::subtract_non_ram_from_ram(&mut list);
    if crate::mem::merge::regions_conflict(region_vec_as_slice(&list)) {
        return Err(InitError::KindConflict);
    }
    Ok(init_regions(regions, args_regions, page_size, free_memory_start, kimage_start_lma, rsv_end))
}

} // verus!

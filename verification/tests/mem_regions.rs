use somehal::hvec::MemoryRegionVec;
use somehal::mem::init::{add_kernel_reserved, find_main, init_regions};
use somehal::mem::merge::{merge_sorted_regions, regions_conflict, sort_regions};
use somehal::mem::subtract::{sort_ranges, subtract_holes_from_range, subtract_non_ram_from_ram};
use somehal::mem::{copy_regions, merge_regions, ram_and_rsv_conflict, region_count, region_ram_and_rsv, MemoryRegion, MemoryRegionKind};

fn ram(start: usize, end: usize) -> MemoryRegion {
    MemoryRegion { kind: MemoryRegionKind::Ram, start, end }
}

fn rsv(start: usize, end: usize) -> MemoryRegion {
    MemoryRegion { kind: MemoryRegionKind::Reserved, start, end }
}

fn boot(start: usize, end: usize) -> MemoryRegion {
    MemoryRegion { kind: MemoryRegionKind::Bootloader, start, end }
}

fn list(items: &[MemoryRegion]) -> MemoryRegionVec {
    let mut v: MemoryRegionVec = heapless::Vec::new();
    for r in items {
        v.push(*r).unwrap();
    }
    v
}

fn holes(items: &[(usize, usize)]) -> heapless::Vec<(usize, usize), 64> {
    let mut v: heapless::Vec<(usize, usize), 64> = heapless::Vec::new();
    for r in items {
        v.push(*r).unwrap();
    }
    v
}

#[test]
fn merge_joins_overlapping_and_adjacent_regions_of_one_kind() {
    let mut v = list(&[ram(0x8000, 0x9000), ram(0x2000, 0x5000), rsv(0x5000, 0x6000), ram(0x1000, 0x3000)]);
    merge_regions(&mut v);
    assert_eq!(v.as_slice(), &[ram(0x1000, 0x5000), rsv(0x5000, 0x6000), ram(0x8000, 0x9000)]);
}

#[test]
fn merge_joins_touching_regions_of_the_same_kind() {
    let mut v = list(&[ram(0x1000, 0x2000), ram(0, 0x1000), rsv(0x3000, 0x4000), rsv(0x4000, 0x4800)]);
    merge_regions(&mut v);
    assert_eq!(v.as_slice(), &[ram(0, 0x2000), rsv(0x3000, 0x4800)]);
}

#[test]
fn merge_of_an_empty_list_is_empty() {
    let mut v = list(&[]);
    merge_regions(&mut v);
    assert!(v.is_empty());
}

#[test]
fn merge_is_idempotent_on_an_example() {
    let mut once = list(&[ram(0x30, 0x40), ram(0x40, 0x50), ram(0x50, 0x60)]);
    merge_regions(&mut once);
    let mut twice = once.clone();
    merge_regions(&mut twice);
    assert_eq!(once, twice);
    assert_eq!(once.as_slice(), &[ram(0x30, 0x60)]);
    assert!(!regions_conflict(once.as_slice()));
}

#[test]
fn conflict_is_found_only_for_overlapping_kinds() {
    assert!(regions_conflict(&[ram(0x1000, 0x3000), rsv(0x2000, 0x4000)]));
    assert!(!regions_conflict(&[ram(0x1000, 0x3000), rsv(0x3000, 0x4000)]));
    assert!(!regions_conflict(&[ram(0x1000, 0x3000), ram(0x2000, 0x4000)]));
    assert!(!regions_conflict(&[]));
}

#[test]
fn sort_is_stable_by_start() {
    let v = vec![ram(5, 6), rsv(1, 2), boot(5, 9), ram(0, 1)];
    let s = sort_regions(&v);
    assert_eq!(s, vec![ram(0, 1), rsv(1, 2), ram(5, 6), boot(5, 9)]);
    let m = merge_sorted_regions(&vec![ram(0, 4), ram(2, 3), ram(4, 8), rsv(9, 10)]);
    assert_eq!(m, vec![ram(0, 8), rsv(9, 10)]);
}

#[test]
fn copy_keeps_every_region() {
    let src = [ram(1, 2), rsv(3, 4)];
    assert_eq!(copy_regions(&src), vec![ram(1, 2), rsv(3, 4)]);
}

#[test]
fn ram_and_reserved_are_merged_and_others_dropped() {
    // RAM overlapping a reserved region is a conflict, ruled out before the call
    assert!(regions_conflict(&[rsv(0x1000, 0x2000), ram(0x1000, 0x1800)]));
    let src = [boot(0, 0x100), ram(0x2000, 0x3000), rsv(0x1000, 0x2000), ram(0x3000, 0x3800)];
    let r = region_ram_and_rsv(&src);
    assert_eq!(r, vec![rsv(0x1000, 0x2000), ram(0x2000, 0x3800)]);
    assert_eq!(region_ram_and_rsv(&[boot(0, 1)]), vec![]);
}

#[test]
fn holes_are_cut_out_of_a_range() {
    let h = holes(&[(0x3000, 0x4000), (0x0, 0x1000), (0x8000, 0x9000), (0x3800, 0x5000)]);
    let f = subtract_holes_from_range(0x800, 0x8800, &h);
    assert_eq!(f.as_slice(), &[(0x1000, 0x3000), (0x5000, 0x8000)]);
    // no hole reaches into the range: the range is kept whole
    let f = subtract_holes_from_range(0x10000, 0x20000, &h);
    assert_eq!(f.as_slice(), &[(0x10000, 0x20000)]);
    // a hole covering everything leaves nothing
    let f = subtract_holes_from_range(0x3100, 0x3200, &h);
    assert!(f.is_empty());
}

#[test]
fn ranges_sort_by_start_stably() {
    let v = vec![(5usize, 9usize), (1, 2), (5, 6), (0, 10)];
    assert_eq!(sort_ranges(&v), vec![(0, 10), (1, 2), (5, 9), (5, 6)]);
}

#[test]
fn non_ram_is_subtracted_from_ram() {
    let mut v = list(&[ram(0x0, 0x10000), rsv(0x2000, 0x3000), boot(0x2800, 0x4000), rsv(0x8000, 0x9000)]);
    subtract_non_ram_from_ram(&mut v);
    assert_eq!(
        v.as_slice(),
        &[
            rsv(0x2000, 0x3000),
            boot(0x2800, 0x4000),
            rsv(0x8000, 0x9000),
            ram(0x0, 0x2000),
            ram(0x4000, 0x8000),
            ram(0x9000, 0x10000),
        ]
    );
}

#[test]
fn subtraction_without_non_ram_changes_nothing() {
    let mut v = list(&[ram(0x5000, 0x6000), ram(0, 0x1000)]);
    subtract_non_ram_from_ram(&mut v);
    assert_eq!(v.as_slice(), &[ram(0x5000, 0x6000), ram(0, 0x1000)]);
}

#[test]
fn kept_ram_avoids_every_non_ram_address() {
    let mut v = list(&[ram(0x0, 0x4000), ram(0x6000, 0x7000), rsv(0x1000, 0x2000), boot(0x6800, 0x9000)]);
    subtract_non_ram_from_ram(&mut v);
    let non_ram = [(0x1000usize, 0x2000usize), (0x6800, 0x9000)];
    for a in (0..0xa000usize).step_by(0x100) {
        let in_ram = v.iter().any(|r| r.kind == MemoryRegionKind::Ram && r.start <= a && a < r.end);
        let in_non_ram = non_ram.iter().any(|&(s, e)| s <= a && a < e);
        let in_old_ram = a < 0x4000 || (0x6000 <= a && a < 0x7000);
        assert_eq!(in_ram, in_old_ram && !in_non_ram, "address {a:#x}");
    }
}

#[test]
fn main_region_is_the_first_ram_holding_the_image() {
    let s = [rsv(0, 0x10000), ram(0x10000, 0x20000), ram(0x15000, 0x30000)];
    assert_eq!(find_main(&s, 0x18000), Some(ram(0x10000, 0x20000)));
    assert_eq!(find_main(&s, 0x25000), Some(ram(0x15000, 0x30000)));
    assert_eq!(find_main(&s, 0x5000), None);
    assert_eq!(find_main(&s, 0x30000), None);
}

#[test]
fn memory_before_the_kernel_is_reserved() {
    let mut v = list(&[ram(0x4000_0000, 0x8000_0000)]);
    assert_eq!(add_kernel_reserved(&mut v, 0x4020_0000, 0x4020_0000), Some(()));
    assert_eq!(v.as_slice(), &[ram(0x4000_0000, 0x8000_0000), rsv(0x4000_0000, 0x4020_0000)]);
    // already reserved: nothing is added
    assert_eq!(add_kernel_reserved(&mut v, 0x4020_0000, 0x4010_0000), Some(()));
    assert_eq!(v.len(), 2);
    // empty range: nothing is added
    let mut w = list(&[ram(0x4000_0000, 0x8000_0000)]);
    assert_eq!(add_kernel_reserved(&mut w, 0x4020_0000, 0x4000_0000), Some(()));
    assert_eq!(w.len(), 1);
    // no RAM holds the image
    assert_eq!(add_kernel_reserved(&mut w, 0x9000_0000, 0x9010_0000), None);
    assert_eq!(w.len(), 1);
}

#[test]
fn boot_regions_are_prepared() {
    let mut v = list(&[ram(0x4000_0000, 0x4800_0000)]);
    let args = [rsv(0x4800_0000, 0x4800_0800), boot(0x4030_0000, 0x4030_0100)];
    let free = init_regions(&mut v, &args, 0x1000, 0x4030_0100, 0x4020_0000, 0x4020_0000);
    // the region that ended at the start of free memory was rounded up, and
    // free memory moved with it
    assert_eq!(free, 0x4030_1000);
    assert_eq!(
        v.as_slice(),
        &[
            rsv(0x4000_0000, 0x4020_0000),
            ram(0x4020_0000, 0x4030_0000),
            MemoryRegion { kind: MemoryRegionKind::Bootloader, start: 0x4030_0000, end: 0x4030_1000 },
            ram(0x4030_1000, 0x4800_0000),
            rsv(0x4800_0000, 0x4800_1000),
        ]
    );
}

use somehal::mem::init::{align_ends, check_ends_alignable, count_non_ram_and_ram, try_init_regions, InitError};

#[test]
fn checked_setup_matches_the_setup_on_good_input() {
    let mut v = list(&[ram(0x4000_0000, 0x4800_0000)]);
    let mut w = v.clone();
    let args = [rsv(0x4800_0000, 0x4800_0800), boot(0x4030_0000, 0x4030_0100)];
    let r = try_init_regions(&mut v, &args, 0x1000, 0x4030_0100, 0x4020_0000, 0x4020_0000);
    let free = init_regions(&mut w, &args, 0x1000, 0x4030_0100, 0x4020_0000, 0x4020_0000);
    assert_eq!(r, Ok(free));
    assert_eq!(v, w);
}

#[test]
fn checked_setup_reports_each_error() {
    let full: Vec<MemoryRegion> = (0..128usize).map(|i| rsv(i * 0x1000, i * 0x1000 + 0x1000)).collect();
    let mut v = list(&full);
    assert_eq!(try_init_regions(&mut v, &[ram(0, 1)], 0x1000, 0, 0, 0), Err(InitError::RegionsOverflow));
    assert_eq!(v.len(), 128);

    let mut v = list(&[ram(0, usize::MAX - 1)]);
    assert_eq!(try_init_regions(&mut v, &[], 0x1000, 0, 0, 0), Err(InitError::EndOverflow));
    assert_eq!(v.as_slice(), &[ram(0, usize::MAX - 1)]);

    let many: Vec<MemoryRegion> = (0..65usize).map(|i| rsv(i * 0x1000, i * 0x1000 + 0x1000)).collect();
    let mut v = list(&many);
    assert_eq!(try_init_regions(&mut v, &[], 0x1000, 0, 0, 0), Err(InitError::TooManyNonRam));

    let rams: Vec<MemoryRegion> = (0..9usize).map(|i| ram(i * 0x2000, i * 0x2000 + 0x1000)).collect();
    let mut v = list(&rams);
    assert_eq!(try_init_regions(&mut v, &[rsv(0x100_0000, 0x100_1000)], 0x1000, 0, 0, 0), Err(InitError::TooManyRam));

    let mut v = list(&[rsv(0x1000, 0x3000), boot(0x2000, 0x4000)]);
    assert_eq!(try_init_regions(&mut v, &[], 0x1000, 0, 0, 0), Err(InitError::KindConflict));
    assert_eq!(v.as_slice(), &[rsv(0x1000, 0x3000), boot(0x2000, 0x4000)]);
}

#[test]
fn region_ends_are_rounded_up_to_pages() {
    let items = vec![ram(0, 0x1800), rsv(0x2000, 0x3000), boot(0x3000, 0x3001)];
    let (a, free) = align_ends(&items, 0x1000, 0x3001);
    assert_eq!(a, vec![ram(0, 0x2000), rsv(0x2000, 0x3000), boot(0x3000, 0x4000)]);
    assert_eq!(free, 0x4000);
    assert!(check_ends_alignable(&items, 0x1000));
    assert!(!check_ends_alignable(&[ram(0, usize::MAX)], 0x1000));
    assert!(check_ends_alignable(&[ram(0, usize::MAX - 0xfff)], 0x1000));
    assert_eq!(count_non_ram_and_ram(&items), (2, 1));
}

#[test]
fn ram_overlapping_reserved_is_a_mapping_conflict() {
    assert!(ram_and_rsv_conflict(&[ram(0, 0x2000), boot(0x1000, 0x3000), rsv(0x1800, 0x1900)]));
    // bootloader regions are not mapped, so they do not conflict
    assert!(!ram_and_rsv_conflict(&[ram(0, 0x2000), boot(0x1000, 0x3000), rsv(0x2000, 0x2100)]));
    assert!(!ram_and_rsv_conflict(&[]));
}

#[test]
fn region_count_is_the_list_length() {
    assert_eq!(region_count(&list(&[])), 0);
    assert_eq!(region_count(&list(&[ram(0x1000, 0x2000), rsv(0x3000, 0x4000)])), 2);
}

#[test]
fn fragments_of_a_range_are_ordered_and_apart() {
    let h = holes(&[(0x7000, 0x7800), (0x1000, 0x2000), (0x1800, 0x3000), (0x5000, 0x5001), (0x0, 0x800)]);
    let f = subtract_holes_from_range(0x0, 0x8000, &h);
    assert_eq!(f.as_slice(), &[(0x800, 0x1000), (0x3000, 0x5000), (0x5001, 0x7000), (0x7800, 0x8000)]);
    for w in f.windows(2) {
        assert!(w[0].0 < w[0].1 && w[0].1 < w[1].0);
    }
}

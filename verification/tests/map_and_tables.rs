use somehal::mem::map::{
    iomap, kimage_range_phys, ld_range_to_map_config, phys_to_virt, regions_to_map, try_regions_to_map, AccessKind, BootLayout,
    CacheKind, MapRangeConfig, PageTable,
};
use somehal::mem::mmu::{access_permission, Permission, Tte};
use somehal::mem::stack::{cpu_id_list, cpu_stack, init_percpu_stack, PercpuStacks};
use somehal::mem::{MemoryRegion, MemoryRegionKind};
use somehal::paging::{aarch64, riscv64, x86_64, AccessFlags, CacheConfig, MemConfig};

const KCODE: usize = 0xffff_8000_0000_0000;
const KLINER: usize = 0xffff_0000_0000_0000;

fn layout(debug: Option<usize>, percpu: core::ops::Range<usize>) -> BootLayout {
    BootLayout {
        kcode_offset: KCODE,
        kliner_offset: KLINER,
        page_size: 0x1000,
        kimage_start_lma: 0x4020_0000,
        kernel_code_end: KCODE + 0x4040_0000,
        debug_console: debug,
        text: KCODE + 0x4020_0000..KCODE + 0x4028_0000,
        rodata: KCODE + 0x4028_0000..KCODE + 0x4030_0000,
        data: KCODE + 0x4030_0000..KCODE + 0x4034_0000,
        bss: KCODE + 0x4034_0000..KCODE + 0x4038_0000,
        stack0: KCODE + 0x4038_0000..KCODE + 0x4040_0000,
        percpu_stack: percpu,
    }
}

fn check(c: &MapRangeConfig, vaddr: usize, paddr: usize, size: usize, name: &str, cache: CacheKind, access: AccessKind, share: bool) {
    assert_eq!(c.vaddr, vaddr, "{name}");
    assert_eq!(c.paddr, paddr, "{name}");
    assert_eq!(c.size, size, "{name}");
    assert_eq!(c.name, name);
    assert_eq!(c.cache, cache, "{name}");
    assert!(c.access == access, "{name}");
    assert_eq!(c.cpu_share, share, "{name}");
}

#[test]
fn image_addresses_use_the_image_offset_and_others_the_linear_map() {
    let l = layout(None, 0..0);
    let r = kimage_range_phys(&l);
    assert_eq!((r.start, r.end), (0x4020_0000, 0x4040_0000));
    assert_eq!(phys_to_virt(0x4030_0000, &l), KCODE + 0x4030_0000);
    assert_eq!(phys_to_virt(0x4020_0000, &l), KCODE + 0x4020_0000);
    assert_eq!(phys_to_virt(0x4040_0000, &l), KLINER + 0x4040_0000);
    assert_eq!(phys_to_virt(0x5000_0000, &l), KLINER + 0x5000_0000);
}

#[test]
fn iomap_maps_device_memory_read_write() {
    let l = layout(None, 0..0);
    let c = iomap(0x0900_0000, 0x1000, &l);
    check(&c, KLINER + 0x0900_0000, 0x0900_0000, 0x1000, "iomap", CacheKind::Device, AccessKind::ReadWrite, false);
}

#[test]
fn access_kinds_print_as_rwx() {
    assert_eq!(AccessKind::Read.as_str(), "R--");
    assert_eq!(AccessKind::ReadWrite.as_str(), "RW-");
    assert_eq!(AccessKind::ReadExecute.as_str(), "R-X");
    assert_eq!(AccessKind::ReadWriteExecute.as_str(), "RWX");
}

#[test]
fn linker_sections_map_to_their_load_address() {
    let c = ld_range_to_map_config("text", KCODE + 0x1000..KCODE + 0x3000, true, AccessKind::ReadExecute, KCODE);
    check(&c, KCODE + 0x1000, 0x1000, 0x2000, "text", CacheKind::Normal, AccessKind::ReadExecute, true);
    // an empty or reversed range maps nothing
    let c = ld_range_to_map_config("bss", KCODE + 0x3000..KCODE + 0x2000, true, AccessKind::ReadWriteExecute, KCODE);
    assert_eq!(c.size, 0);
}

#[test]
fn the_kernel_page_table_maps_memory_console_sections_and_stacks() {
    let regions = [
        MemoryRegion { kind: MemoryRegionKind::Reserved, start: 0x4000_0000, end: 0x4020_0000 },
        MemoryRegion { kind: MemoryRegionKind::Ram, start: 0x4020_0000, end: 0x8000_0000 },
        MemoryRegion { kind: MemoryRegionKind::Bootloader, start: 0x9000_0000, end: 0x9000_1000 },
    ];
    let l = layout(Some(0x0900_0123), 0x4040_0000..0x4042_0000);
    let m = regions_to_map(&regions, &l);
    assert_eq!(m.len(), 9);
    check(&m[0], KLINER + 0x4000_0000, 0x4000_0000, 0x20_0000, "ram", CacheKind::Normal, AccessKind::ReadWrite, true);
    check(&m[1], KCODE + 0x4020_0000, 0x4020_0000, 0x3fe0_0000, "ram", CacheKind::Normal, AccessKind::ReadWrite, true);
    check(&m[2], KLINER + 0x0900_0000, 0x0900_0000, 0x1000, "debug-con", CacheKind::Device, AccessKind::ReadWrite, true);
    check(&m[3], KCODE + 0x4020_0000, 0x4020_0000, 0x8_0000, "text", CacheKind::Normal, AccessKind::ReadExecute, true);
    check(&m[4], KCODE + 0x4028_0000, 0x4028_0000, 0x8_0000, "rodata", CacheKind::Normal, AccessKind::ReadExecute, true);
    check(&m[5], KCODE + 0x4030_0000, 0x4030_0000, 0x4_0000, "data", CacheKind::Normal, AccessKind::ReadWriteExecute, true);
    check(&m[6], KCODE + 0x4034_0000, 0x4034_0000, 0x4_0000, "bss", CacheKind::Normal, AccessKind::ReadWriteExecute, true);
    check(&m[7], KCODE + 0x4038_0000, 0x4038_0000, 0x8_0000, "stack0", CacheKind::Normal, AccessKind::ReadWriteExecute, false);
    check(&m[8], KCODE + 0x4040_0000, 0x4040_0000, 0x2_0000, "percpu-stack", CacheKind::Normal, AccessKind::ReadWriteExecute, false);
}

#[test]
fn without_console_or_secondary_stacks_only_memory_and_sections_are_mapped() {
    let regions = [MemoryRegion { kind: MemoryRegionKind::Ram, start: 0x4000_0000, end: 0x5000_0000 }];
    let l = layout(None, 0x4040_0000..0x4040_0000);
    let m = regions_to_map(&regions, &l);
    assert_eq!(m.len(), 6);
    assert_eq!(m[0].name, "ram");
    assert_eq!(m[1].name, "text");
    assert_eq!(m[5].name, "stack0");
}

#[test]
fn secondary_stacks_are_laid_out_after_free_memory() {
    let mut regions: heapless::Vec<MemoryRegion, 128> = heapless::Vec::new();
    let s = init_percpu_stack(&mut regions, 0x4040_0123, 0x1000, 0x1_8000, &[0, 1, 2, 3], 0);
    assert_eq!(s.start, 0x4040_1000);
    assert_eq!(s.end, 0x4044_9000);
    assert_eq!(s.slots, vec![(1, 0x4040_1000), (2, 0x4041_9000), (3, 0x4043_1000)]);
    assert_eq!(
        regions.as_slice(),
        &[MemoryRegion { kind: MemoryRegionKind::Reserved, start: 0x4040_0123, end: 0x4044_9000 }]
    );
    assert_eq!(cpu_id_list(0, &s), vec![0, 1, 2, 3]);
    let stack0 = 0x100..0x200;
    let r = cpu_stack(2, 0, stack0.clone(), &s, 0x1_8000);
    assert_eq!((r.start, r.end), (0x4041_9000, 0x4043_1000));
    let r = cpu_stack(0, 0, stack0.clone(), &s, 0x1_8000);
    assert_eq!(r, stack0);
    // the stacks of different CPUs do not overlap and stay inside the range
    for k in 0..s.slots.len() {
        for j in k + 1..s.slots.len() {
            assert!(s.slots[k].1 + 0x1_8000 <= s.slots[j].1);
        }
        assert!(s.start <= s.slots[k].1 && s.slots[k].1 + 0x1_8000 <= s.end);
    }
}

#[test]
fn the_boot_cpu_gets_no_secondary_stack() {
    let mut regions: heapless::Vec<MemoryRegion, 128> = heapless::Vec::new();
    let s = init_percpu_stack(&mut regions, 0x8000, 0x1000, 0x1800, &[7], 7);
    assert_eq!(s.start, 0x8000);
    assert_eq!(s.end, 0x8000);
    assert!(s.slots.is_empty());
    let ids = cpu_id_list(7, &PercpuStacks { start: 0, end: 0, slots: vec![] });
    assert_eq!(ids, vec![7]);
}

#[test]
fn translation_entries_for_mappings() {
    assert_eq!(Tte::empty().0, 0x703);
    let cfg = |access: AccessKind, cache: CacheKind, share: bool| MapRangeConfig {
        vaddr: 0,
        paddr: 0,
        size: 0x1000,
        name: "t",
        cache,
        access,
        cpu_share: share,
    };
    assert_eq!(Tte::from_config(cfg(AccessKind::ReadWrite, CacheKind::Normal, true), 1).0, 0x0040_0000_0000_0747);
    assert_eq!(Tte::from_config(cfg(AccessKind::ReadExecute, CacheKind::Device, false), 0).0, 0x4c3);
    assert_eq!(Tte::from_config(cfg(AccessKind::ReadWriteExecute, CacheKind::Normal, true), 2).0, 0x74b);
    assert_eq!(Tte::from_config(cfg(AccessKind::Read, CacheKind::NoCache, false), 7).0, 0x0040_0000_0000_04df);
    assert_eq!(access_permission(AccessKind::Read), Permission::ReadOnly);
    assert_eq!(access_permission(AccessKind::ReadWriteExecute), Permission::ReadWrite);
}

#[test]
fn translation_entry_address_and_flags() {
    let mut t = Tte::empty();
    assert!(t.valid());
    assert!(!t.is_huge());
    t.set_paddr(0x4000_1000);
    assert_eq!(t.0, 0x4000_1703);
    assert_eq!(t.paddr(), 0x4000_1000);
    t.set_is_huge(true);
    assert!(t.is_huge());
    assert_eq!(t.0, 0x4000_1701);
    t.set_is_huge(false);
    assert_eq!(t.0, 0x4000_1703);
    t.set_valid(false);
    assert!(!t.valid());
    assert_eq!(t.paddr(), 0);
    assert!(!t.is_huge());
    t.set_valid(true);
    t.set_paddr(0xffff_ffff_f000);
    assert_eq!(t.paddr(), 0xffff_ffff_f000);
    // the bits above the address field (contiguous hint, bit 52) are kept
    let mut c = Tte(0x10_0000_0000_0403);
    c.set_paddr(0x1000);
    assert_eq!(c.0, 0x10_0000_0000_1403);
}

fn flags(write: bool, execute: bool, lower_read: bool, lower_write: bool, lower_execute: bool) -> AccessFlags {
    AccessFlags { read: true, write, execute, lower_read, lower_write, lower_execute }
}

#[test]
fn aarch64_entries() {
    let p = aarch64::new_pte_with_config(MemConfig { access: flags(true, false, false, false, false), cache: CacheConfig::Normal });
    assert_eq!(p.0, 0x0060_0000_0000_0405);
    let p = aarch64::new_pte_with_config(MemConfig { access: flags(false, true, true, false, true), cache: CacheConfig::Device });
    assert_eq!(p.0, 0x4c1);
    let p = aarch64::new_pte_with_config(MemConfig { access: flags(true, true, false, false, true), cache: CacheConfig::WriteThrough });
    assert_eq!(p.0, 0x409);
    let mut e = aarch64::Pte(0x0060_0000_0000_0405);
    assert!(e.valid());
    e.set_paddr(0x1234_5678_9abc);
    assert_eq!(e.paddr(), 0x1234_5678_9000);
    assert_eq!(e.0, 0x0060_1234_5678_9405);
    assert!(e.is_block());
    e.set_is_block(false);
    assert!(!e.is_block());
    e.set_mair_idx(2);
    assert_eq!(e.0 & 0x1c, 0x8);
    e.set_valid(false);
    assert!(!e.valid());
}

#[test]
fn aarch64_kernel_table_register() {
    let v = aarch64::set_kernal_table(PageTable { id: 5, addr: 0x4000_2000 });
    assert_eq!(v, 0x0005_0000_4000_2000);
    assert_eq!(aarch64::get_kernal_table(v), PageTable { id: 5, addr: 0x4000_2000 });
    // bit 0 (CnP) is not part of the address
    assert_eq!(aarch64::get_kernal_table(0x0001_0000_0000_1001), PageTable { id: 1, addr: 0x1000 });
}

#[test]
fn riscv64_entries() {
    // read and write: V | R | W | A | D
    let p = riscv64::new_pte_with_config(MemConfig { access: flags(true, false, false, false, false), cache: CacheConfig::Normal });
    assert_eq!(p.0, 0xc7);
    // read and execute, also from user mode: V | R | X | U | A | D
    let p = riscv64::new_pte_with_config(MemConfig { access: flags(false, true, true, false, true), cache: CacheConfig::Normal });
    assert_eq!(p.0, 0xdb);
    let p = riscv64::new_pte_with_config(MemConfig { access: flags(false, false, false, true, false), cache: CacheConfig::Device });
    assert_eq!(p.0, 0xd3);
    let mut e = riscv64::Pte(0xd9);
    e.set_paddr(0x8020_0);
    assert_eq!(e.paddr(), 0x8020_0);
    assert_eq!(e.0, 0x8020_0 << 10);
    assert!(!e.valid());
    e.set_valid(true);
    assert!(e.valid());
    assert!(!e.is_block());
    e.set_is_block(true);
    assert!(e.is_block());
    assert_eq!(e.0 & 0xe, 0x2);
    e.set_is_block(false);
    assert!(!e.is_block());
    assert_eq!(e.0 & 0x3ff, 0x1);
}

#[test]
fn x86_64_entries_and_fault_codes() {
    let p = x86_64::new_pte_with_config(MemConfig { access: flags(true, false, false, false, false), cache: CacheConfig::Device });
    assert_eq!(p.0, 0x8000_0000_0000_0013);
    let p = x86_64::new_pte_with_config(MemConfig { access: flags(false, true, true, false, false), cache: CacheConfig::WriteThrough });
    assert_eq!(p.0, 0xd);
    let mut e = x86_64::Pte(0x8000_0000_0000_0013);
    e.set_paddr(0xdead_b123);
    assert_eq!(e.paddr(), 0xdead_b000);
    assert_eq!(e.0, 0x8000_0000_dead_b013);
    e.set_is_huge(true);
    assert!(e.is_huge());
    e.set_valid(false);
    assert!(!e.valid());
    assert_eq!(x86_64::err_code_to_flags(0x1), Err(0x1));
    assert_eq!(x86_64::err_code_to_flags(0x2), Ok(AccessFlags { read: false, write: true, execute: false, lower_read: false, lower_write: false, lower_execute: false }));
    assert_eq!(x86_64::err_code_to_flags(0x14), Ok(AccessFlags { read: true, write: false, execute: true, lower_read: true, lower_write: false, lower_execute: false }));
    assert_eq!(x86_64::err_code_to_flags(0x8000_0000), Err(0x8000_0000));
}

#[test]
fn mapping_is_refused_on_conflicts_and_overflowing_layouts() {
    let regions = [MemoryRegion { kind: MemoryRegionKind::Ram, start: 0x4000_0000, end: 0x5000_0000 }];
    let l = layout(None, 0x4040_0000..0x4040_0000);
    let m = try_regions_to_map(&regions, &l).unwrap();
    assert_eq!(m.len(), regions_to_map(&regions, &l).len());
    assert_eq!(m[0].vaddr, KLINER + 0x4000_0000);
    // a RAM region overlapping a reserved one
    let bad = [
        MemoryRegion { kind: MemoryRegionKind::Ram, start: 0x4000_0000, end: 0x5000_0000 },
        MemoryRegion { kind: MemoryRegionKind::Reserved, start: 0x4800_0000, end: 0x5800_0000 },
    ];
    assert!(try_regions_to_map(&bad, &l).is_none());
    // a region whose virtual address would overflow
    let high = [MemoryRegion { kind: MemoryRegionKind::Ram, start: 0x1_0000_0000_0000, end: 0x1_0000_1000_0000 }];
    assert!(try_regions_to_map(&high, &l).is_none());
    // a section below the image offset
    let mut l2 = layout(None, 0x4040_0000..0x4040_0000);
    l2.text = 0x1000..0x2000;
    assert!(try_regions_to_map(&regions, &l2).is_none());
    // no page size
    let mut l3 = layout(None, 0x4040_0000..0x4040_0000);
    l3.page_size = 0;
    assert!(try_regions_to_map(&regions, &l3).is_none());
}

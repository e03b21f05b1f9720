use somehal::cache::DcacheOp;
use somehal::efi::{check_system_table, efi_puts, efi_puts_step, utf8_to_utf32, EntryError, PutsStep};
use somehal::fdt::{add_fdt_regions, enabled_cpu_ids, fdt_size, has_cpu_at, CpuNode};
use somehal::lazy_static::LazyStatic;
use somehal::loongarch::{self, apply, get_load_offset, str_to_utf16, to_phys, Rela, R_LARCH_RELATIVE, VMLINUX_LOAD_ADDRESS};
use somehal::mem::{MemoryRegion, MemoryRegionKind};
use somehal::power::{self, parse_method, secondary_entry_addr, Method};
use somehal::time::{nanos_to_ticks, ticks_to_nanos, NANO_PER_SEC};
use somehal::trap::{classify_sync, classify_trap, data_abort_reason, PageFaultReason, SyncKind, TrapKind};

#[test]
fn lazy_static_is_initialized_once() {
    let mut s: LazyStatic<u32> = LazyStatic::new();
    assert_eq!(s.try_init(3), Ok(()));
    assert_eq!(*s.get(), 3);
    assert_eq!(s.try_init(4), Err("StaticOnce has already been initialized"));
    assert_eq!(*s.get(), 3);
    *s.edit() += 1;
    assert_eq!(*s.get(), 4);
    s.clean();
    assert_eq!(s.try_init(5), Ok(()));
    assert_eq!(*s.get(), 5);
}

#[test]
fn lazy_static_default_is_replaced_by_init() {
    let mut s = LazyStatic::with_default(10usize);
    assert_eq!(*s.get(), 10);
    s.init(11);
    assert_eq!(*s.get(), 11);
    assert!(s.try_init(12).is_err());
}

#[test]
fn ticks_and_nanoseconds() {
    assert_eq!(NANO_PER_SEC, 1_000_000_000);
    assert_eq!(ticks_to_nanos(24_000_000, 24_000_000), 1_000_000_000);
    assert_eq!(ticks_to_nanos(1, 3), 333_333_333);
    assert_eq!(nanos_to_ticks(1_000_000_000, 24_000_000), 24_000_000);
    assert_eq!(nanos_to_ticks(333_333_333, 3), 0);
    // the round trip never gains ticks and loses at most one below 1 GHz
    for (t, hz) in [(1u64, 3u64), (123_456_789, 62_500_000), (u64::MAX / 2, 1_000_000_000), (7, 19_200_000)] {
        let back = nanos_to_ticks(ticks_to_nanos(t, hz), hz);
        assert!(back <= t && back + 1 >= t, "{t} at {hz} Hz");
    }
}

#[test]
fn loongarch_physical_addresses_and_relocation() {
    assert_eq!(to_phys(0x9000_0000_0020_0000), 0x20_0000);
    assert_eq!(to_phys(0x1234), 0x1234);
    assert_eq!(VMLINUX_LOAD_ADDRESS, 0x9000_0000_0020_0000);
    let off = get_load_offset(0x9000_0000_0040_0000);
    assert_eq!(off, 0x20_0000);
    let relocs = [
        Rela { r_offset: 0x9000_0000_0030_0000, r_info: R_LARCH_RELATIVE as u64, r_addend: 0x9000_0000_0031_0000u64 as i64 },
        Rela { r_offset: 0x9000_0000_0030_0008, r_info: 2, r_addend: 5 },
        Rela { r_offset: 0x9000_0000_0030_0010, r_info: (7u64 << 32) | 3, r_addend: -16 },
    ];
    assert_eq!(relocs[2].r_type_raw(), 3);
    let w = apply(&relocs, off);
    assert_eq!(
        w,
        vec![
            (0x9000_0000_0050_0000, 0x9000_0000_0051_0000),
            (0x9000_0000_0050_0010, (0x20_0000i64 - 16) as usize),
        ]
    );
    assert_eq!(loongarch::cpu_on(1, 0x1000), Ok(()));
    loongarch::init_by_fdt(None);
}

#[test]
fn utf16_conversion_keeps_plane_zero_and_terminates() {
    let mut buf = [0xffffu16; 8];
    let n = str_to_utf16("hé😀z", &mut buf);
    assert_eq!(n, 4);
    assert_eq!(&buf[..4], &[0x68, 0xe9, 0x7a, 0]);
    assert_eq!(buf[4], 0xffff);
    let mut small = [0xffffu16; 3];
    let n = str_to_utf16("abcdef", &mut small);
    assert_eq!(n, 3);
    assert_eq!(small, [0x61, 0x62, 0]);
    let mut one = [7u16; 1];
    assert_eq!(str_to_utf16("abc", &mut one), 1);
    assert_eq!(one, [0]);
}

#[test]
fn psci_method_from_the_device_tree() {
    assert_eq!(parse_method("smc"), Some(Method::Smc));
    assert_eq!(parse_method("hvc"), Some(Method::Hvc));
    assert_eq!(parse_method("HVC"), None);
    assert_eq!(parse_method("smcc"), None);
    assert_eq!(Method::Smc.as_str(), "SMC");
    assert_eq!(Method::Hvc.as_str(), "HVC");
    let mut slot: LazyStatic<Method> = LazyStatic::new();
    assert_eq!(power::init_by_fdt(&mut slot, None), Ok(None));
    assert!(slot.try_init(Method::Smc).is_ok());
    assert_eq!(secondary_entry_addr(0xffff_8000_4021_0000, 0xffff_8000_0000_0000), 0x4021_0000);
}

#[test]
fn exception_syndromes_are_classified() {
    assert_eq!(classify_sync(0x15 << 26), SyncKind::Syscall);
    assert_eq!(classify_sync((0x24 << 26) | 0x47), SyncKind::DataAbort { iss: 0x47, is_user: true });
    assert_eq!(classify_sync((0x25 << 26) | (1 << 25) | 0x1ff_ffff), SyncKind::DataAbort { iss: 0x1ff_ffff, is_user: false });
    assert_eq!(classify_sync(0x3c << 26), SyncKind::Breakpoint);
    assert_eq!(classify_sync((0x07 << 26) | 5), SyncKind::Unhandled { ec: 7, iss: 5 });
    assert_eq!(data_abort_reason(0x40), PageFaultReason::Write);
    assert_eq!(data_abort_reason(0x140), PageFaultReason::Read);
    assert_eq!(data_abort_reason(0), PageFaultReason::Read);
    assert_eq!(classify_trap(14), TrapKind::PageFault);
    assert_eq!(classify_trap(3), TrapKind::Breakpoint);
    assert_eq!(classify_trap(13), TrapKind::GeneralProtection);
    assert_eq!(classify_trap(0x20), TrapKind::Irq);
    assert_eq!(classify_trap(0x100 + 14), TrapKind::PageFault);
    assert_eq!(classify_trap(6), TrapKind::Unhandled);
}

#[test]
fn cache_operation_codes() {
    assert_eq!(DcacheOp::CleanAndInvalidate.code(), 0);
    assert_eq!(DcacheOp::InvalidateOnly.code(), 1);
}

#[test]
fn utf8_sequences_decode() {
    assert_eq!(dec(b""), (0, 0));
    assert_eq!(dec(b"A"), (0x41, 1));
    assert_eq!(dec("é".as_bytes()), (0xe9, 2));
    assert_eq!(dec("€x".as_bytes()), (0x20ac, 3));
    assert_eq!(dec("😀".as_bytes()), (0x1f600, 4));
    // overlong, truncated, surrogate and bad continuation: the lead byte as it is
    assert_eq!(dec(&[0xc0, 0x80]), (0xc0, 1));
    assert_eq!(dec(&[0xe2, 0x82]), (0xe2, 1));
    assert_eq!(dec(&[0xed, 0xa0, 0x80]), (0xed, 1));
    assert_eq!(dec(&[0xc3, 0x41]), (0xc3, 1));
    assert_eq!(dec(&[0xf4, 0x90, 0x80, 0x80]), (0xf4, 1));
}

#[test]
fn efi_output_adds_carriage_returns_and_terminators() {
    let out = efi_puts("a\nb");
    assert_eq!(out, vec![vec![0x61, 0x0d, 0x0a, 0x62, 0]]);
    // UTF-8 is converted to UTF-16
    assert_eq!(efi_puts("é"), vec![vec![0xe9, 0]]);
    // beyond plane 0: a surrogate pair
    assert_eq!(efi_puts("😀!"), vec![vec![0xd83d, 0xde00, 0x21, 0]]);
    // a byte that starts no valid sequence is printed as itself
    assert_eq!(efi_puts(core::str::from_utf8(&[0x41]).unwrap()), vec![vec![0x41, 0]]);
    assert!(efi_puts("").is_empty());
    // long text is cut into terminated strings of at most 128 units
    let long = "x".repeat(300);
    let out = efi_puts(&long);
    assert_eq!(out.len(), 3);
    assert!(out.iter().all(|c| c.len() <= 128 && *c.last().unwrap() == 0));
    let joined: Vec<u16> = out.iter().flat_map(|c| c[..c.len() - 1].to_vec()).collect();
    assert_eq!(joined, vec![0x78u16; 300]);
    assert_eq!(out[0].len(), 126);
}

fn ram(start: usize, end: usize) -> MemoryRegion {
    MemoryRegion { kind: MemoryRegionKind::Ram, start, end }
}

fn rsv(start: usize, end: usize) -> MemoryRegion {
    MemoryRegion { kind: MemoryRegionKind::Reserved, start, end }
}

#[test]
fn device_tree_header_size() {
    let h = [0xd0, 0x0d, 0xfe, 0xed, 0x00, 0x00, 0x12, 0x34];
    assert_eq!(fdt_size(&h), 0x1234);
    let h = [0xd0, 0x0d, 0xfe, 0xee, 0x00, 0x00, 0x12, 0x34];
    assert_eq!(fdt_size(&h), 0);
}

#[test]
fn device_tree_memory_becomes_regions() {
    let mut regions: heapless::Vec<MemoryRegion, 128> = heapless::Vec::new();
    let r = add_fdt_regions(
        &mut regions,
        &[(0x4000_0000, 0x4000_0000), (0x1_0000_0000, 0)],
        &[(0x4800_0000, 0x1000)],
        &[(0x4900_0000, Some(0x2000)), (0x4a00_0000, None)],
    );
    assert_eq!(r, Some(()));
    assert_eq!(
        regions.as_slice(),
        &[ram(0x4000_0000, 0x8000_0000), rsv(0x4800_0000, 0x4800_1000), rsv(0x4900_0000, 0x4900_2000)]
    );
}

#[test]
fn device_tree_regions_that_do_not_fit_are_an_error() {
    let mut regions: heapless::Vec<MemoryRegion, 128> = heapless::Vec::new();
    for i in 0..127usize {
        regions.push(ram(i * 0x1000, i * 0x1000 + 0x1000)).unwrap();
    }
    let r = add_fdt_regions(&mut regions, &[(0x100_0000, 0x1000), (0x200_0000, 0x1000)], &[], &[]);
    assert_eq!(r, None);
    assert_eq!(regions.len(), 128);
    assert_eq!(regions[127], ram(0x100_0000, 0x100_1000));
}

#[test]
fn enabled_cpu_nodes_give_the_cpu_ids() {
    assert!(has_cpu_at(b"cpu@0"));
    assert!(has_cpu_at(b"big-cpu@100"));
    assert!(!has_cpu_at(b"cpus"));
    assert!(!has_cpu_at(b"cp"));
    let nodes = [
        CpuNode { name: b"cpu@0".to_vec(), disabled: false, reg: Some(0) },
        CpuNode { name: b"cpu-map".to_vec(), disabled: false, reg: None },
        CpuNode { name: b"cpu@100".to_vec(), disabled: true, reg: Some(0x100) },
        CpuNode { name: b"cpu@200".to_vec(), disabled: false, reg: Some(0x200) },
    ];
    assert_eq!(enabled_cpu_ids(&nodes), vec![0, 0x200]);
}

#[test]
fn utf8_encodings_decode_back() {
    for cp in [0x41u32, 0x7f, 0x80, 0xe9, 0x7ff, 0x800, 0xd7ff, 0xe000, 0xfffd, 0xffff, 0x10000, 0x1f600, 0x10ffff] {
        let c = char::from_u32(cp).unwrap();
        let mut buf = [0u8; 4];
        let e = c.encode_utf8(&mut buf).as_bytes().to_vec();
        let mut s = e.clone();
        s.push(b'z');
        assert_eq!(dec(&s), (cp, e.len()), "U+{cp:X}");
    }
    // every valid four-byte sequence decodes, whatever its bits 11..16 read
    let c = char::from_u32(0x1d800).unwrap();
    let mut buf = [0u8; 4];
    let e = c.encode_utf8(&mut buf).as_bytes().to_vec();
    assert_eq!(e, vec![0xf0, 0x9d, 0xa0, 0x80]);
    assert_eq!(dec(&e), (0x1d800, 4));
}

#[test]
fn utf8_text_decodes_character_by_character() {
    let t = "a\u{1d800}é€😀\n";
    let mut s: &[u8] = t.as_bytes();
    let mut got = Vec::new();
    while !s.is_empty() {
        got.push(utf8_to_utf32(&mut s));
    }
    let want: Vec<u32> = t.chars().map(|c| c as u32).collect();
    assert_eq!(got, want);
}

#[test]
fn entry_accepts_only_a_system_table() {
    assert_eq!(check_system_table(None), Err(EntryError::InvalidParameter));
    assert_eq!(check_system_table(Some(uefi_raw::table::system::SystemTable::SIGNATURE)), Ok(()));
    assert_eq!(check_system_table(Some(0x5453_5953_2049_4249)), Ok(()));
    assert_eq!(check_system_table(Some(0)), Err(EntryError::InvalidParameter));
    assert_eq!(check_system_table(Some(0x5453_5953_2049_4248)), Err(EntryError::InvalidParameter));
}

/// Drives the console writer's steps over `s` with a fixed buffer and
/// collects what it prints.
fn printed_by_steps(s: &str) -> Vec<Vec<u16>> {
    let bytes = s.as_bytes();
    let mut buf = [0xffffu16; 128];
    let mut pending = 0usize;
    let mut pos = 0usize;
    let mut out = Vec::new();
    loop {
        match efi_puts_step(bytes, pos, &mut buf, pending) {
            PutsStep::Done => return out,
            PutsStep::Print(n) => {
                out.push(buf[..n].to_vec());
                pending = 0;
                if pos == bytes.len() {
                    return out;
                }
            }
            PutsStep::Next { pos: p, pending: n } => {
                pos = p;
                pending = n;
            }
        }
    }
}

#[test]
fn console_writer_steps_print_what_efi_puts_gives() {
    let mut long = "ab\n😀é".repeat(40);
    long.push('x');
    for s in ["", "a\nb", "é", "😀!", long.as_str()] {
        assert_eq!(printed_by_steps(s), efi_puts(s), "{s:?}");
    }
    let mut buf = [7u16; 128];
    assert_eq!(efi_puts_step("😀".as_bytes(), 0, &mut buf, 3), PutsStep::Next { pos: 4, pending: 5 });
    assert_eq!(&buf[..6], &[7, 7, 7, 0xd83d, 0xde00, 7]);
    assert_eq!(efi_puts_step(b"x", 0, &mut buf, 125), PutsStep::Print(126));
    assert_eq!(buf[125], 0);
    assert_eq!(efi_puts_step(b"x", 1, &mut buf, 0), PutsStep::Done);
}

/// Decodes the first character of `b`: the character and the bytes taken.
fn dec(b: &[u8]) -> (u32, usize) {
    let mut s = b;
    let c = utf8_to_utf32(&mut s);
    (c, b.len() - s.len())
}

/// What Rust's own UTF-8 decoding makes of the start of `s`: the character
/// of the well-formed prefix of one to four bytes, else the first byte.
fn rust_decoded(s: &[u8]) -> (u32, usize) {
    for n in 1..=s.len().min(4) {
        if let Ok(t) = core::str::from_utf8(&s[..n]) {
            if t.chars().count() == 1 {
                return (t.chars().next().unwrap() as u32, n);
            }
        }
    }
    (s[0] as u32, 1)
}

#[test]
fn decoding_agrees_with_rust_on_every_lead_byte() {
    let seconds = [0x00u8, 0x41, 0x7f, 0x80, 0x8f, 0x90, 0x9f, 0xa0, 0xbf, 0xc0, 0xff];
    let others = [0x80u8, 0xbf, 0x41];
    for b0 in 0..=255u8 {
        assert_eq!(dec(&[b0]), rust_decoded(&[b0]));
        for &b1 in &seconds {
            assert_eq!(dec(&[b0, b1]), rust_decoded(&[b0, b1]));
            for &b2 in &others {
                assert_eq!(dec(&[b0, b1, b2]), rust_decoded(&[b0, b1, b2]));
                for &b3 in &others {
                    let s = [b0, b1, b2, b3, b'z'];
                    assert_eq!(dec(&s), rust_decoded(&s), "{s:x?}");
                }
            }
        }
    }
}

use somehal::fdt::{cpu_id_list, find_rams, setup_plat_info};
use somehal::fdt_layout::check_fdt_layout;
use somehal::lazy_static::LazyStatic;
use somehal::mem::{MemoryRegion, MemoryRegionKind};
use somehal::power::{init_by_fdt, parse_method_bytes, Method};

/// A flattened device tree under construction.
struct Dtb {
    structs: Vec<u8>,
    strings: Vec<u8>,
}

fn be32(v: u32) -> [u8; 4] {
    v.to_be_bytes()
}

fn cells(v: &[u32]) -> Vec<u8> {
    v.iter().flat_map(|c| c.to_be_bytes()).collect()
}

fn text(s: &str) -> Vec<u8> {
    let mut v = s.as_bytes().to_vec();
    v.push(0);
    v
}

impl Dtb {
    fn new() -> Dtb {
        Dtb { structs: Vec::new(), strings: Vec::new() }
    }

    fn pad(&mut self) {
        while self.structs.len() % 4 != 0 {
            self.structs.push(0);
        }
    }

    fn begin(&mut self, name: &str) -> &mut Dtb {
        self.structs.extend_from_slice(&be32(1));
        self.structs.extend_from_slice(&text(name));
        self.pad();
        self
    }

    fn end(&mut self) -> &mut Dtb {
        self.structs.extend_from_slice(&be32(2));
        self
    }

    fn prop(&mut self, name: &str, value: &[u8]) -> &mut Dtb {
        let key = text(name);
        let off = match self.strings.windows(key.len()).position(|w| w == key.as_slice()) {
            Some(p) => p,
            None => {
                let p = self.strings.len();
                self.strings.extend_from_slice(&key);
                p
            }
        };
        self.structs.extend_from_slice(&be32(3));
        self.structs.extend_from_slice(&be32(value.len() as u32));
        self.structs.extend_from_slice(&be32(off as u32));
        self.structs.extend_from_slice(value);
        self.pad();
        self
    }

    fn finish(&mut self, rsv: &[(u64, u64)]) -> Vec<u8> {
        self.structs.extend_from_slice(&be32(9));
        let off_rsv = 40usize;
        let off_struct = off_rsv + 16 * (rsv.len() + 1);
        let off_strings = off_struct + self.structs.len();
        let total = off_strings + self.strings.len();
        let mut out = Vec::new();
        for v in [
            0xd00d_feedu32,
            total as u32,
            off_struct as u32,
            off_strings as u32,
            off_rsv as u32,
            17,
            16,
            0,
            self.strings.len() as u32,
            self.structs.len() as u32,
        ] {
            out.extend_from_slice(&be32(v));
        }
        for &(a, s) in rsv.iter().chain([(0u64, 0u64)].iter()) {
            out.extend_from_slice(&a.to_be_bytes());
            out.extend_from_slice(&s.to_be_bytes());
        }
        out.extend_from_slice(&self.structs);
        out.extend_from_slice(&self.strings);
        out
    }
}

fn board(method: &str, with_psci: bool) -> Vec<u8> {
    let mut d = Dtb::new();
    d.begin("").prop("#address-cells", &cells(&[2])).prop("#size-cells", &cells(&[2]));
    d.begin("cpus").prop("#address-cells", &cells(&[1])).prop("#size-cells", &cells(&[0]));
    d.begin("cpu@0").prop("reg", &cells(&[0])).end();
    d.begin("cpu@1").prop("reg", &cells(&[1])).prop("status", &text("disabled")).end();
    d.begin("cpu@100").prop("reg", &cells(&[0x100])).prop("status", &text("okay")).end();
    d.end();
    d.begin("memory@40000000")
        .prop("device_type", &text("memory"))
        .prop("reg", &cells(&[0, 0x4000_0000, 0, 0x2000_0000]))
        .end();
    d.begin("reserved-memory").prop("#address-cells", &cells(&[2])).prop("#size-cells", &cells(&[2]));
    d.begin("buf@48000000").prop("reg", &cells(&[0, 0x4800_0000, 0, 0x1000])).end();
    d.begin("noreg").prop("no-map", &[]).end();
    d.end();
    if with_psci {
        d.begin("psci").prop("compatible", &text("arm,psci-1.0")).prop("method", &text(method)).end();
    }
    d.end();
    d.finish(&[(0x4900_0000, 0x2000)])
}

fn ram(start: usize, end: usize) -> MemoryRegion {
    MemoryRegion { kind: MemoryRegionKind::Ram, start, end }
}

fn rsv(start: usize, end: usize) -> MemoryRegion {
    MemoryRegion { kind: MemoryRegionKind::Reserved, start, end }
}

#[test]
fn enabled_cpus_of_the_device_tree() {
    let blob = board("hvc", true);
    assert_eq!(cpu_id_list(&blob), Some(vec![0, 0x100]));
    assert_eq!(cpu_id_list(&[0u8; 16]), None);
}

#[test]
fn memory_of_the_device_tree() {
    let blob = board("hvc", true);
    let mut regions: heapless::Vec<MemoryRegion, 128> = heapless::Vec::new();
    assert_eq!(find_rams(&mut regions, &blob), Some(()));
    assert_eq!(
        regions.as_slice(),
        &[ram(0x4000_0000, 0x6000_0000), rsv(0x4900_0000, 0x4900_2000), rsv(0x4800_0000, 0x4800_1000)]
    );
    let mut regions: heapless::Vec<MemoryRegion, 128> = heapless::Vec::new();
    assert_eq!(find_rams(&mut regions, b"not a device tree at all........"), None);
    assert!(regions.is_empty());
}

#[test]
fn platform_information_from_the_device_tree() {
    let blob = board("smc", true);
    let mut cpus: LazyStatic<usize> = LazyStatic::new();
    let mut regions: heapless::Vec<MemoryRegion, 128> = heapless::Vec::new();
    assert_eq!(setup_plat_info(&mut cpus, &mut regions, &blob), Some(()));
    assert_eq!(*cpus.get(), 2);
    assert_eq!(regions.len(), 3);
    let mut cpus: LazyStatic<usize> = LazyStatic::new();
    let mut regions: heapless::Vec<MemoryRegion, 128> = heapless::Vec::new();
    assert_eq!(setup_plat_info(&mut cpus, &mut regions, &[0u8; 8]), None);
    assert!(!cpus.initialized());
}

#[test]
fn psci_conduit_from_the_device_tree() {
    let mut slot: LazyStatic<Method> = LazyStatic::new();
    assert_eq!(init_by_fdt(&mut slot, Some(board("hvc", true).as_slice())), Ok(Some(Method::Hvc)));
    assert_eq!(*slot.get(), Method::Hvc);
    let mut slot: LazyStatic<Method> = LazyStatic::new();
    assert_eq!(init_by_fdt(&mut slot, Some(board("smc", true).as_slice())), Ok(Some(Method::Smc)));
    let mut slot: LazyStatic<Method> = LazyStatic::new();
    assert_eq!(init_by_fdt(&mut slot, Some(board("foo", true).as_slice())), Err(b"foo".to_vec()));
    assert!(!slot.initialized());
    assert_eq!(init_by_fdt(&mut slot, Some(board("smc", false).as_slice())), Ok(None));
    assert!(!slot.initialized());
    assert_eq!(parse_method_bytes(b"smc"), Some(Method::Smc));
    assert_eq!(parse_method_bytes(b"sm"), None);
}

fn be32_at(b: &[u8], i: usize) -> usize {
    u32::from_be_bytes([b[i], b[i + 1], b[i + 2], b[i + 3]]) as usize
}

#[test]
fn device_tree_layout_is_checked() {
    let b = board("hvc", true);
    assert!(check_fdt_layout(&b));
    // the structure block or the reservation block starting past the end
    let mut bad = b.clone();
    bad[8..12].copy_from_slice(&be32(b.len() as u32 + 4));
    assert!(!check_fdt_layout(&bad));
    assert_eq!(cpu_id_list(&bad), None);
    let mut bad = b.clone();
    bad[16..20].copy_from_slice(&be32(b.len() as u32 + 1));
    assert!(!check_fdt_layout(&bad));
    let mut regions: heapless::Vec<MemoryRegion, 128> = heapless::Vec::new();
    assert_eq!(find_rams(&mut regions, &bad), None);
    // no end token: the walk runs into the strings
    let mut bad = b.clone();
    let strings = be32_at(&b, 12);
    bad[strings - 4..strings].copy_from_slice(&be32(4));
    assert!(!check_fdt_layout(&bad));
    let mut slot: LazyStatic<Method> = LazyStatic::new();
    assert_eq!(init_by_fdt(&mut slot, Some(bad.as_slice())), Ok(None));
    assert!(!slot.initialized());
    // a property name past the end of the blob
    let mut d = Dtb::new();
    d.begin("").prop("model", &text("x")).end();
    let mut bad = d.finish(&[]);
    let strings = be32_at(&bad, 12);
    let first_prop = be32_at(&bad, 8) + 8;
    bad[first_prop + 8..first_prop + 12].copy_from_slice(&be32(0x1000));
    assert!(be32_at(&bad, 12) == strings);
    assert!(!check_fdt_layout(&bad));
    // more node ends than node starts
    let mut d = Dtb::new();
    d.end();
    d.begin("").end();
    assert!(!check_fdt_layout(&d.finish(&[])));
    assert!(!check_fdt_layout(&[0u8; 16]));
}

#[test]
fn cell_counts_the_parser_cannot_take_are_refused() {
    // three address cells above a memory node, whose reg the parser reads
    let mut d = Dtb::new();
    d.begin("").prop("#address-cells", &cells(&[3])).prop("#size-cells", &cells(&[1]));
    d.begin("memory@0").prop("device_type", &text("memory")).prop("reg", &cells(&[0, 0, 0, 0x1000])).end();
    d.end();
    let blob = d.finish(&[]);
    assert!(!check_fdt_layout(&blob));
    let mut regions: heapless::Vec<MemoryRegion, 128> = heapless::Vec::new();
    assert_eq!(find_rams(&mut regions, &blob), None);
    assert!(regions.is_empty());

    // three size cells above a cpu node
    let mut d = Dtb::new();
    d.begin("").prop("#address-cells", &cells(&[1])).prop("#size-cells", &cells(&[1]));
    d.begin("cpus").prop("#address-cells", &cells(&[1])).prop("#size-cells", &cells(&[3]));
    d.begin("cpu@0").prop("reg", &cells(&[0])).end();
    d.end();
    d.end();
    assert!(!check_fdt_layout(&d.finish(&[])));

    // no address cells above a child of reserved-memory
    let mut d = Dtb::new();
    d.begin("").prop("#address-cells", &cells(&[1])).prop("#size-cells", &cells(&[1]));
    d.begin("reserved-memory").prop("#address-cells", &cells(&[0])).prop("#size-cells", &cells(&[1]));
    d.begin("buf").prop("reg", &cells(&[0x1000])).end();
    d.end();
    d.end();
    assert!(!check_fdt_layout(&d.finish(&[])));

    // one cell each: accepted, and read
    let mut d = Dtb::new();
    d.begin("").prop("#address-cells", &cells(&[1])).prop("#size-cells", &cells(&[1]));
    d.begin("memory@80000000").prop("device_type", &text("memory")).prop("reg", &cells(&[0x8000_0000, 0x1000_0000])).end();
    d.end();
    let blob = d.finish(&[]);
    assert!(check_fdt_layout(&blob));
    let mut regions: heapless::Vec<MemoryRegion, 128> = heapless::Vec::new();
    assert_eq!(find_rams(&mut regions, &blob), Some(()));
    assert_eq!(regions.as_slice(), &[ram(0x8000_0000, 0x9000_0000)]);
}

#[test]
fn cell_counts_of_nodes_whose_reg_is_not_read_are_accepted() {
    // a PCI bus with three address cells and an interrupt controller with
    // none, beside the usual nodes; a bus whose ranges use high addresses
    let mut d = Dtb::new();
    d.begin("").prop("#address-cells", &cells(&[2])).prop("#size-cells", &cells(&[2]));
    d.begin("cpus").prop("#address-cells", &cells(&[1])).prop("#size-cells", &cells(&[0]));
    d.begin("cpu@0").prop("reg", &cells(&[0])).end();
    d.end();
    d.begin("memory@40000000").prop("device_type", &text("memory")).prop("reg", &cells(&[0, 0x4000_0000, 0, 0x1000_0000])).end();
    d.begin("pcie@10000000")
        .prop("#address-cells", &cells(&[3]))
        .prop("#size-cells", &cells(&[2]))
        .prop("reg", &cells(&[0x40, 0x1000_0000, 0, 0x1000_0000]))
        .prop("ranges", &cells(&[0x0100_0000, 0, 0, 0, 0x3eff_0000, 0, 0x1_0000]));
    d.begin("pci@0,0").prop("reg", &cells(&[0, 0, 0, 0, 0])).end();
    d.end();
    d.begin("plic@c000000")
        .prop("#address-cells", &cells(&[0]))
        .prop("#interrupt-cells", &cells(&[1]))
        .prop("reg", &cells(&[0, 0x0c00_0000, 0, 0x60_0000]))
        .end();
    d.begin("soc")
        .prop("#address-cells", &cells(&[1]))
        .prop("#size-cells", &cells(&[1]))
        .prop("ranges", &cells(&[0x7e00_0000, 0, 0xfe00_0000, 0x0180_0000]));
    d.begin("serial@7e201000").prop("reg", &cells(&[0x7e20_1000, 0x200])).end();
    d.end();
    d.end();
    let blob = d.finish(&[]);
    assert!(check_fdt_layout(&blob));
    assert_eq!(cpu_id_list(&blob), Some(vec![0]));
    let mut regions: heapless::Vec<MemoryRegion, 128> = heapless::Vec::new();
    assert_eq!(find_rams(&mut regions, &blob), Some(()));
    assert_eq!(regions.as_slice(), &[ram(0x4000_0000, 0x5000_0000)]);
}

/// A tree with a bus of `ac` address and `sc` size cells and `ranges`,
/// holding a memory node with `reg`, under a root with `root_ac` address
/// cells.
fn bus(root_ac: u32, ac: u32, sc: u32, ranges: &[u32], reg: &[u32]) -> Vec<u8> {
    let mut d = Dtb::new();
    d.begin("").prop("#address-cells", &cells(&[root_ac])).prop("#size-cells", &cells(&[1]));
    d.begin("soc").prop("#address-cells", &cells(&[ac])).prop("#size-cells", &cells(&[sc])).prop("ranges", &cells(ranges));
    d.begin("memory@1000").prop("device_type", &text("memory")).prop("reg", &cells(reg)).end();
    d.end();
    d.end();
    d.finish(&[])
}

#[test]
fn ranges_the_parser_cannot_take_are_refused() {
    // translated through the bus's ranges
    let blob = bus(1, 1, 1, &[0, 0x4000_0000, 0x10_0000], &[0x1000, 0x100]);
    assert!(check_fdt_layout(&blob));
    let mut regions: heapless::Vec<MemoryRegion, 128> = heapless::Vec::new();
    assert_eq!(find_rams(&mut regions, &blob), Some(()));
    assert_eq!(regions.as_slice(), &[ram(0x4000_1000, 0x4000_1100)]);
    // high words are fine when nothing overflows
    assert!(check_fdt_layout(&bus(1, 1, 1, &[0x8000_0000, 0xfe00_0000, 0x10_0000], &[0x8000_1000, 0x100])));
    // empty ranges need nothing; a reg entry without a size counts as size
    // 0, and a region of size 0 is left out
    let blob = bus(1, 1, 0, &[], &[0x1000]);
    assert!(check_fdt_layout(&blob));
    let mut regions: heapless::Vec<MemoryRegion, 128> = heapless::Vec::new();
    assert_eq!(find_rams(&mut regions, &blob), Some(()));
    assert!(regions.is_empty());
    // a full entry with no size cell
    assert!(!check_fdt_layout(&bus(1, 1, 0, &[0, 0x4000_0000], &[0x1000])));
    // a child address plus size past 2^64
    assert!(!check_fdt_layout(&bus(1, 2, 2, &[0xffff_ffff, 0xffff_f000, 0, 0, 0x1_0000], &[0, 0x1000, 0, 0x100])));
    // a parent address plus size past 2^64
    assert!(!check_fdt_layout(&bus(2, 2, 2, &[0, 0, 0xffff_ffff, 0xffff_f000, 0, 0x1_0000], &[0, 0x1000, 0, 0x100])));
    // no parent address cells
    assert!(!check_fdt_layout(&bus(0, 1, 1, &[0, 0x1000, 0x10], &[0x1000, 0x10])));
}

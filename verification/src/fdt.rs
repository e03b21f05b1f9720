//! Platform information taken from the flattened device tree.

use vstd::prelude::*;

use fdt_parser::base::Fdt;
use fdt_parser::Status;

use crate::fdt_layout::{check_fdt_layout, fdt_layout_ok};
use crate::hvec::{MemoryRegionVec, region_list, region_vec_push};
use crate::lazy_static::LazyStatic;
use crate::mem::{MemoryRegion, MemoryRegionKind};
use crate::mem::subtract::cap;

verus! {

/// The magic number at the start of a flattened device tree.
pub const FDT_MAGIC: u32 = 0xd00d_feed;

/// The big-endian 32-bit word at `s[i..i + 4]`.
pub open spec fn be32(s: Seq<u8>, i: int) -> int {
    s[i] as int * 0x100_0000 + s[i + 1] as int * 0x1_0000 + s[i + 2] as int * 0x100 + s[i + 3] as int
}

/// The total size that a device-tree header declares: its second
/// big-endian word when the first is the magic number, else zero.
pub fn fdt_size(header: &[u8]) -> (r: usize)
    requires
        header@.len() >= 8,
    ensures
        be32(header@, 0) == FDT_MAGIC ==> r == be32(header@, 4),
        be32(header@, 0) != FDT_MAGIC ==> r == 0,
{
    let magic: u32 = (header[0] as u32) * 0x100_0000 + (header[1] as u32) * 0x1_0000 + (header[2] as u32) * 0x100
        + header[3] as u32;
    let size: u32 = (header[4] as u32) * 0x100_0000 + (header[5] as u32) * 0x1_0000 + (header[6] as u32) * 0x100
        + header[7] as u32;
    if magic != FDT_MAGIC {
        return 0;
    }
    size as usize
}

/// The regions that `find_rams` adds, in order: a RAM region for every
/// memory range of non-zero size, a reserved region for every entry of the
/// memory reservation block, and a reserved region for every
/// reserved-memory node whose first `reg` entry has a size.
pub open spec fn fdt_regions(
    memory: Seq<(usize, usize)>,
    rsv_block: Seq<(usize, usize)>,
    rsv_nodes: Seq<(usize, Option<usize>)>,
) -> Seq<MemoryRegion> {
    mem_regions(memory) + rsv_regions(rsv_block) + node_regions(rsv_nodes)
}

pub open spec fn mem_regions(m: Seq<(usize, usize)>) -> Seq<MemoryRegion>
    decreases m.len(),
{
    if m.len() == 0 {
        Seq::empty()
    } else if m.last().1 == 0 {
        mem_regions(m.drop_last())
    } else {
        mem_regions(m.drop_last()).push(
            MemoryRegion { kind: MemoryRegionKind::Ram, start: m.last().0, end: (m.last().0 + m.last().1) as usize },
        )
    }
}

pub open spec fn rsv_regions(m: Seq<(usize, usize)>) -> Seq<MemoryRegion> {
    Seq::new(m.len(), |i: int| MemoryRegion { kind: MemoryRegionKind::Reserved, start: m[i].0, end: (m[i].0 + m[i].1) as usize })
}

pub open spec fn node_regions(m: Seq<(usize, Option<usize>)>) -> Seq<MemoryRegion>
    decreases m.len(),
{
    if m.len() == 0 {
        Seq::empty()
    } else {
        match m.last().1 {
            None => node_regions(m.drop_last()),
            Some(size) => node_regions(m.drop_last()).push(
                MemoryRegion { kind: MemoryRegionKind::Reserved, start: m.last().0, end: (m.last().0 + size) as usize },
            ),
        }
    }
}

/// No end address of a device-tree range overflows.
pub open spec fn fdt_ranges_ok(
    memory: Seq<(usize, usize)>,
    rsv_block: Seq<(usize, usize)>,
    rsv_nodes: Seq<(usize, Option<usize>)>,
) -> bool {
    &&& forall|i: int| 0 <= i < memory.len() ==> (#[trigger] memory[i]).0 + memory[i].1 <= usize::MAX
    &&& forall|i: int| 0 <= i < rsv_block.len() ==> (#[trigger] rsv_block[i]).0 + rsv_block[i].1 <= usize::MAX
    &&& forall|i: int| 0 <= i < rsv_nodes.len() ==> ((#[trigger] rsv_nodes[i]).1 matches Some(size)
        ==> rsv_nodes[i].0 + size <= usize::MAX)
}

/// Pushes the regions of `items` in order until one does not fit; `false`
/// then.
fn push_until_full(regions: &mut MemoryRegionVec, items: &Vec<MemoryRegion>) -> (r: bool)
    requires
        region_list(*old(regions)).len() <= 128,
    ensures
        region_list(*final(regions)) == cap(region_list(*old(regions)) + items@, 128),
        r <==> region_list(*old(regions)).len() + items@.len() <= 128,
{
    let ghost s0 = region_list(*regions);
    let mut i: usize = 0;
    while i < items.len()
        invariant
            i <= items.len(),
            s0 == region_list(*old(regions)),
            s0.len() + i <= 128,
            region_list(*regions) == s0 + items@.take(i as int),
        decreases items.len() - i,
    {
        let list = crate::mem::take_regions(regions);
        let pushed = region_vec_push(list, items[i]);
        *regions = pushed.list;
        if pushed.res.is_err() {
            assert(s0.len() + i == 128);
            assert(s0 + items@.take(i as int) =~= (s0 + items@).take(128));
            return false;
        }
        i = i + 1;
        assert(region_list(*regions) =~= s0 + items@.take(i as int));
    }
    assert(items@.take(items@.len() as int) =~= items@);
    true
}

/// Adds the memory and reserved regions that the device tree describes,
/// given as plain values, to `regions`, stopping at the first region that
/// does not fit: `None` then.
pub fn add_fdt_regions(
    regions: &mut MemoryRegionVec,
    memory: &[(usize, usize)],
    rsv_block: &[(usize, usize)],
    rsv_nodes: &[(usize, Option<usize>)],
) -> (r: Option<()>)
    requires
        region_list(*old(regions)).len() <= 128,
        fdt_ranges_ok(memory@, rsv_block@, rsv_nodes@),
    ensures
        region_list(*final(regions)) == cap(region_list(*old(regions)) + fdt_regions(memory@, rsv_block@, rsv_nodes@), 128),
        r is Some <==> region_list(*old(regions)).len() + fdt_regions(memory@, rsv_block@, rsv_nodes@).len() <= 128,
{
    let mut items: Vec<MemoryRegion> = Vec::new();
    let mut i: usize = 0;
    while i < memory.len()
        invariant
            i <= memory.len(),
            fdt_ranges_ok(memory@, rsv_block@, rsv_nodes@),
            items@ == mem_regions(memory@.take(i as int)),
        decreases memory.len() - i,
    {
        let (start, size) = memory[i];
        proof {
            assert(memory@.take(i as int + 1).drop_last() =~= memory@.take(i as int));
            assert(memory@[i as int].0 + memory@[i as int].1 <= usize::MAX);
        }
        if size != 0 {
            items.push(MemoryRegion { kind: MemoryRegionKind::Ram, start, end: start + size });
        }
        i = i + 1;
    }
    assert(memory@.take(memory@.len() as int) =~= memory@);
    let ghost m = items@;
    let mut i: usize = 0;
    while i < rsv_block.len()
        invariant
            i <= rsv_block.len(),
            fdt_ranges_ok(memory@, rsv_block@, rsv_nodes@),
            items@ == m + rsv_regions(rsv_block@.take(i as int)),
        decreases rsv_block.len() - i,
    {
        let (start, size) = rsv_block[i];
        proof {
            assert(rsv_block@[i as int].0 + rsv_block@[i as int].1 <= usize::MAX);
        }
        items.push(MemoryRegion { kind: MemoryRegionKind::Reserved, start, end: start + size });
        i = i + 1;
        assert(items@ =~= m + rsv_regions(rsv_block@.take(i as int)));
    }
    assert(rsv_block@.take(rsv_block@.len() as int) =~= rsv_block@);
    let ghost mr = items@;
    let mut i: usize = 0;
    while i < rsv_nodes.len()
        invariant
            i <= rsv_nodes.len(),
            fdt_ranges_ok(memory@, rsv_block@, rsv_nodes@),
            items@ == mr + node_regions(rsv_nodes@.take(i as int)),
        decreases rsv_nodes.len() - i,
    {
        let (start, size) = rsv_nodes[i];
        proof {
            assert(rsv_nodes@.take(i as int + 1).drop_last() =~= rsv_nodes@.take(i as int));
        }
        if let Some(size) = size {
            proof {
                assert(rsv_nodes@[i as int].1 == Some(size));
            }
            items.push(MemoryRegion { kind: MemoryRegionKind::Reserved, start, end: start + size });
        }
        i = i + 1;
        assert(items@ =~= mr + node_regions(rsv_nodes@.take(i as int)));
    }
    assert(rsv_nodes@.take(rsv_nodes@.len() as int) =~= rsv_nodes@);
    assert(items@ =~= fdt_regions(memory@, rsv_block@, rsv_nodes@));
    if push_until_full(regions, &items) {
        Some(())
    } else {
        None
    }
}

/// The bytes `cpu@` in ASCII.
pub open spec fn cpu_at() -> Seq<u8> {
    seq![0x63u8, 0x70u8, 0x75u8, 0x40u8]
}

/// `name` holds `cpu@` somewhere.
pub open spec fn names_cpu(name: Seq<u8>) -> bool {
    exists|i: int| 0 <= i && i + 4 <= name.len() && #[trigger] name.subrange(i, i + 4) == cpu_at()
}

/// Whether the node name `name` holds `cpu@`.
pub fn has_cpu_at(name: &[u8]) -> (r: bool)
    ensures
        r == names_cpu(name@),
{
    if name.len() < 4 {
        assert(!names_cpu(name@));
        return false;
    }
    let mut i: usize = 0;
    let last = name.len() - 4;
    while i <= last
        invariant
            name@.len() >= 4,
            last == name@.len() - 4,
            i <= last + 1,
            forall|j: int| 0 <= j < i ==> #[trigger] name@.subrange(j, j + 4) != cpu_at(),
        decreases name.len() - i,
    {
        if name[i] == 0x63 && name[i + 1] == 0x70 && name[i + 2] == 0x75 && name[i + 3] == 0x40 {
            assert(name@.subrange(i as int, i + 4) =~= cpu_at());
            return true;
        }
        assert(name@.subrange(i as int, i + 4)[0] == name@[i as int]);
        assert(name@.subrange(i as int, i + 4)[1] == name@[i + 1]);
        assert(name@.subrange(i as int, i + 4)[2] == name@[i + 2]);
        assert(name@.subrange(i as int, i + 4)[3] == name@[i + 3]);
        assert(cpu_at()[0] == 0x63 && cpu_at()[1] == 0x70 && cpu_at()[2] == 0x75 && cpu_at()[3] == 0x40);
        i = i + 1;
    }
    false
}

/// A `/cpus/cpu` node of the device tree: its name, whether its status is
/// `disabled`, and the address of its first `reg` entry.
#[derive(Debug)]
pub struct CpuNode {
    pub name: Vec<u8>,
    pub disabled: bool,
    pub reg: Option<usize>,
}

/// A CPU node as plain values: name, whether disabled, first `reg` address.
pub open spec fn node_view(n: CpuNode) -> (Seq<u8>, bool, Option<usize>) {
    (n.name@, n.disabled, n.reg)
}

/// The plain values of each node, in order.
pub open spec fn nodes_view(s: Seq<CpuNode>) -> Seq<(Seq<u8>, bool, Option<usize>)> {
    s.map_values(|n: CpuNode| node_view(n))
}

/// The node names a CPU (`cpu@` in its name) that is not disabled.
pub open spec fn enabled_cpu(node: (Seq<u8>, bool, Option<usize>)) -> bool {
    names_cpu(node.0) && !node.1
}

/// The ids of the enabled CPUs, in order.
pub open spec fn cpu_ids(nodes: Seq<(Seq<u8>, bool, Option<usize>)>) -> Seq<usize>
    decreases nodes.len(),
{
    if nodes.len() == 0 {
        Seq::empty()
    } else if enabled_cpu(nodes.last()) {
        cpu_ids(nodes.drop_last()).push(nodes.last().2->0)
    } else {
        cpu_ids(nodes.drop_last())
    }
}

/// Every enabled CPU node has a `reg` entry.
pub open spec fn cpus_have_reg(nodes: Seq<(Seq<u8>, bool, Option<usize>)>) -> bool {
    forall|i: int| 0 <= i < nodes.len() && enabled_cpu(#[trigger] nodes[i]) ==> nodes[i].2 is Some
}

/// The hardware ids of the CPUs that the device tree lists and does not
/// disable: the address of each one's first `reg` entry, which such a node
/// must have.
pub fn enabled_cpu_ids(nodes: &[CpuNode]) -> (r: Vec<usize>)
    requires
        cpus_have_reg(nodes_view(nodes@)),
    ensures
        r@ == cpu_ids(nodes_view(nodes@)),
{
    let ghost all = nodes_view(nodes@);
    let mut ids: Vec<usize> = Vec::new();
    let mut i: usize = 0;
    while i < nodes.len()
        invariant
            i <= nodes.len(),
            all == nodes_view(nodes@),
            cpus_have_reg(all),
            ids@ == cpu_ids(nodes_view(nodes@.take(i as int))),
        decreases nodes.len() - i,
    {
        let node = &nodes[i];
        proof {
            assert(nodes_view(nodes@.take(i as int + 1)).drop_last() =~= nodes_view(nodes@.take(i as int)));
            assert(nodes_view(nodes@.take(i as int + 1)).last() == all[i as int]);
        }
        if has_cpu_at(node.name.as_slice()) && !node.disabled {
            assert(enabled_cpu(all[i as int]));
            match node.reg {
                Some(a) => ids.push(a),
                None => {},
            }
        }
        i = i + 1;
    }
    assert(nodes@.take(nodes@.len() as int) =~= nodes@);
    ids
}

/// Whether every enabled CPU node has a `reg` entry.
pub fn check_cpus_have_reg(nodes: &[CpuNode]) -> (r: bool)
    ensures
        r == cpus_have_reg(nodes_view(nodes@)),
{
    let ghost all = nodes_view(nodes@);
    let mut i: usize = 0;
    while i < nodes.len()
        invariant
            i <= nodes.len(),
            all == nodes_view(nodes@),
            forall|k: int| 0 <= k < i && enabled_cpu(#[trigger] all[k]) ==> all[k].2 is Some,
        decreases nodes.len() - i,
    {
        let node = &nodes[i];
        assert(all[i as int] == node_view(*node));
        if has_cpu_at(node.name.as_slice()) && !node.disabled && node.reg.is_none() {
            return false;
        }
        i = i + 1;
    }
    true
}

/// What `fdt_parser` makes of the `/memory` nodes of the device-tree blob
/// `blob`: for each node that `find_nodes` yields, `None` when the node or
/// its `reg` fails to parse, else the address and size of each `reg`
/// entry; `None` when the blob does not parse.
pub uninterp spec fn fdt_memory_of(blob: Seq<u8>) -> Option<Seq<Option<Seq<(usize, Option<usize>)>>>>;

/// What `fdt_parser` makes of the memory reservation block of `blob`.
pub uninterp spec fn fdt_rsv_block_of(blob: Seq<u8>) -> Option<Seq<(usize, usize)>>;

/// What `fdt_parser` makes of the `/reserved-memory` children of `blob`:
/// `Err` when looking the node up fails; else for each child, `None` when
/// it fails to parse, else the address and size of its first `reg` entry,
/// if it has one.
pub uninterp spec fn fdt_rsv_nodes_of(blob: Seq<u8>) -> Option<Result<Seq<Option<Option<(usize, Option<usize>)>>>, ()>>;

/// What `fdt_parser` makes of the `/cpus/cpu` nodes of `blob`: for each
/// node that `find_nodes` yields, `None` when it fails to parse.
pub uninterp spec fn fdt_cpu_nodes_of(blob: Seq<u8>) -> Option<Seq<Option<(Seq<u8>, bool, Option<usize>)>>>;

/// The entries of the parsed `reg` lists of `nodes`, in order, a missing
/// size counting as 0.
pub open spec fn mem_entries(nodes: Seq<Option<Seq<(usize, Option<usize>)>>>) -> Seq<(usize, usize)>
    decreases nodes.len(),
{
    if nodes.len() == 0 {
        Seq::empty()
    } else {
        let last: Seq<(usize, usize)> = match nodes.last() {
            Some(w) => w.map_values(|e: (usize, Option<usize>)| (e.0, size_or_zero(e.1))),
            None => Seq::empty(),
        };
        mem_entries(nodes.drop_last()) + last
    }
}

/// A size, 0 when there is none.
pub open spec fn size_or_zero(s: Option<usize>) -> usize {
    match s {
        Some(v) => v,
        None => 0,
    }
}

/// The views of the `reg` lists of `nodes`.
pub open spec fn reg_lists_view(nodes: Seq<Option<Vec<(usize, Option<usize>)>>>) -> Seq<Option<Seq<(usize, Option<usize>)>>> {
    nodes.map_values(|o: Option<Vec<(usize, Option<usize>)>>| match o {
        Some(w) => Some(w@),
        None => None,
    })
}

/// The entries of the parsed `reg` lists of `nodes`, in order, a missing
/// size counting as 0; nodes that failed to parse are left out.
fn memory_entries(nodes: &Vec<Option<Vec<(usize, Option<usize>)>>>) -> (r: Vec<(usize, usize)>)
    ensures
        r@ == mem_entries(reg_lists_view(nodes@)),
{
    let ghost all = reg_lists_view(nodes@);
    let mut out: Vec<(usize, usize)> = Vec::new();
    let mut i: usize = 0;
    while i < nodes.len()
        invariant
            i <= nodes.len(),
            all == reg_lists_view(nodes@),
            out@ == mem_entries(all.take(i as int)),
        decreases nodes.len() - i,
    {
        proof {
            assert(all.take(i as int + 1).drop_last() =~= all.take(i as int));
        }
        match &nodes[i] {
            None => {
                assert(out@ =~= mem_entries(all.take(i as int + 1)));
            },
            Some(w) => {
                let ghost base = out@;
                let ghost ents = w@.map_values(|e: (usize, Option<usize>)| (e.0, size_or_zero(e.1)));
                let mut j: usize = 0;
                while j < w.len()
                    invariant
                        j <= w.len(),
                        ents == w@.map_values(|e: (usize, Option<usize>)| (e.0, size_or_zero(e.1))),
                        out@ == base + ents.take(j as int),
                    decreases w.len() - j,
                {
                    let (a, sz) = w[j];
                    let size = match sz {
                        Some(v) => v,
                        None => 0,
                    };
                    out.push((a, size));
                    j = j + 1;
                    assert(out@ =~= base + ents.take(j as int));
                }
                assert(ents.take(w@.len() as int) =~= ents);
                assert(all[i as int] == Some(w@));
                assert(out@ =~= mem_entries(all.take(i as int + 1)));
            },
        }
        i = i + 1;
    }
    assert(all.take(all.len() as int) =~= all);
    out
}

/// The number of `reg` entries of the nodes that parsed.
pub open spec fn reg_count(nodes: Seq<Option<Seq<(usize, Option<usize>)>>>) -> nat
    decreases nodes.len(),
{
    if nodes.len() == 0 {
        0
    } else {
        reg_count(nodes.drop_last()) + match nodes.last() {
            Some(w) => w.len(),
            None => 0nat,
        }
    }
}

proof fn lemma_mem_entries_has(nodes: Seq<Option<Seq<(usize, Option<usize>)>>>, i: int, j: int)
    requires
        0 <= i < nodes.len(),
        nodes[i] is Some,
        0 <= j < nodes[i]->0.len(),
    ensures
        mem_entries(nodes).contains((nodes[i]->0[j].0, size_or_zero(nodes[i]->0[j].1))),
    decreases nodes.len(),
{
    let p = nodes.drop_last();
    let w = nodes[i]->0;
    let e = (w[j].0, size_or_zero(w[j].1));
    if i == nodes.len() - 1 {
        let last = w.map_values(|e: (usize, Option<usize>)| (e.0, size_or_zero(e.1)));
        assert(mem_entries(nodes) == mem_entries(p) + last);
        assert(mem_entries(nodes)[mem_entries(p).len() + j] == e);
    } else {
        assert(p[i] == nodes[i]);
        lemma_mem_entries_has(p, i, j);
        let k = choose|k: int| 0 <= k < mem_entries(p).len() && mem_entries(p)[k] == e;
        assert(mem_entries(nodes)[k] == e);
    }
}

proof fn lemma_mem_entries_len(nodes: Seq<Option<Seq<(usize, Option<usize>)>>>)
    ensures
        mem_entries(nodes).len() == reg_count(nodes),
    decreases nodes.len(),
{
    if nodes.len() > 0 {
        lemma_mem_entries_len(nodes.drop_last());
    }
}

proof fn lemma_mem_regions_has(m: Seq<(usize, usize)>, k: int)
    requires
        0 <= k < m.len(),
        m[k].1 != 0,
    ensures
        mem_regions(m).contains(
            MemoryRegion { kind: MemoryRegionKind::Ram, start: m[k].0, end: (m[k].0 + m[k].1) as usize },
        ),
    decreases m.len(),
{
    let r = MemoryRegion { kind: MemoryRegionKind::Ram, start: m[k].0, end: (m[k].0 + m[k].1) as usize };
    if k == m.len() - 1 {
        assert(mem_regions(m).last() == r);
    } else {
        assert(m.drop_last()[k] == m[k]);
        lemma_mem_regions_has(m.drop_last(), k);
        let x = choose|x: int| 0 <= x < mem_regions(m.drop_last()).len() && mem_regions(m.drop_last())[x] == r;
        if m.last().1 != 0 {
            assert(mem_regions(m)[x] == r);
        }
    }
}

/// Law: the memory ranges of the nodes `a` followed by the nodes `b` are
/// those of `a` followed by those of `b`: nodes are read in order, and what
/// one node gives does not depend on the others.
pub proof fn law_mem_entries_concat(a: Seq<Option<Seq<(usize, Option<usize>)>>>, b: Seq<Option<Seq<(usize, Option<usize>)>>>)
    ensures
        mem_entries(a + b) == mem_entries(a) + mem_entries(b),
    decreases b.len(),
{
    if b.len() == 0 {
        assert(a + b =~= a);
        assert(mem_entries(a) + mem_entries(b) =~= mem_entries(a));
    } else {
        law_mem_entries_concat(a, b.drop_last());
        assert((a + b).drop_last() =~= a + b.drop_last());
        assert((a + b).last() == b.last());
        assert(mem_entries(a + b) =~= mem_entries(a) + mem_entries(b));
    }
}

/// Law: `find_rams` reads every memory bank. Each `reg` entry of every
/// `/memory` node that parsed is one entry of the memory ranges, which
/// number exactly as many as those entries; and an entry `(address, size)`
/// with a non-zero size becomes the RAM region `[address, address + size)`
/// among the regions that `find_rams` adds.
pub proof fn law_find_rams_reads_every_bank(
    nodes: Seq<Option<Seq<(usize, Option<usize>)>>>,
    rsv_block: Seq<(usize, usize)>,
    rsv_nodes: Seq<(usize, Option<usize>)>,
    i: int,
    j: int,
)
    requires
        0 <= i < nodes.len(),
        nodes[i] is Some,
        0 <= j < nodes[i]->0.len(),
    ensures
        mem_entries(nodes).len() == reg_count(nodes),
        mem_entries(nodes).contains((nodes[i]->0[j].0, size_or_zero(nodes[i]->0[j].1))),
        size_or_zero(nodes[i]->0[j].1) != 0 ==> fdt_regions(mem_entries(nodes), rsv_block, rsv_nodes).contains(
            MemoryRegion {
                kind: MemoryRegionKind::Ram,
                start: nodes[i]->0[j].0,
                end: (nodes[i]->0[j].0 + size_or_zero(nodes[i]->0[j].1)) as usize,
            },
        ),
{
    lemma_mem_entries_len(nodes);
    lemma_mem_entries_has(nodes, i, j);
    let m = mem_entries(nodes);
    let e = (nodes[i]->0[j].0, size_or_zero(nodes[i]->0[j].1));
    if e.1 != 0 {
        let k = choose|k: int| 0 <= k < m.len() && m[k] == e;
        lemma_mem_regions_has(m, k);
        let r = MemoryRegion { kind: MemoryRegionKind::Ram, start: e.0, end: (e.0 + e.1) as usize };
        let x = choose|x: int| 0 <= x < mem_regions(m).len() && mem_regions(m)[x] == r;
        assert(fdt_regions(m, rsv_block, rsv_nodes)[x] == r);
    }
}

/// The first `reg` entries of the reserved-memory children that parsed
/// and have one; none when the lookup failed.
pub open spec fn rsv_regs(nodes: Result<Seq<Option<Option<(usize, Option<usize>)>>>, ()>) -> Seq<(usize, Option<usize>)> {
    match nodes {
        Ok(s) => present_regs(s),
        Err(_) => Seq::empty(),
    }
}

/// The CPU nodes that parsed, in order.
pub open spec fn parsed_nodes(s: Seq<Option<(Seq<u8>, bool, Option<usize>)>>) -> Seq<(Seq<u8>, bool, Option<usize>)>
    decreases s.len(),
{
    if s.len() == 0 {
        Seq::empty()
    } else {
        let head: Seq<(Seq<u8>, bool, Option<usize>)> = match s[0] {
            Some(n) => seq![n],
            None => Seq::empty(),
        };
        head + parsed_nodes(s.drop_first())
    }
}

/// The plain values of each node that parsed; `None` for one that did not.
pub open spec fn opt_nodes_view(s: Seq<Option<CpuNode>>) -> Seq<Option<(Seq<u8>, bool, Option<usize>)>> {
    s.map_values(|o: Option<CpuNode>| match o {
        Some(n) => Some(node_view(n)),
        None => None,
    })
}

/// The CPU nodes that parsed, in order.
fn keep_parsed(v: Vec<Option<CpuNode>>) -> (r: Vec<CpuNode>)
    ensures
        nodes_view(r@) == parsed_nodes(opt_nodes_view(v@)),
{
    let ghost orig = opt_nodes_view(v@);
    let mut v = v;
    let mut out: Vec<CpuNode> = Vec::new();
    assert(nodes_view(out@) + parsed_nodes(opt_nodes_view(v@)) =~= parsed_nodes(orig));
    while v.len() > 0
        invariant
            nodes_view(out@) + parsed_nodes(opt_nodes_view(v@)) == parsed_nodes(orig),
        decreases v.len(),
    {
        let ghost before = opt_nodes_view(v@);
        let x = v.remove(0);
        assert(opt_nodes_view(v@) =~= before.drop_first());
        match x {
            Some(n) => {
                out.push(n);
                assert(nodes_view(out@) =~= nodes_view(out@.drop_last()).push(node_view(n)));
            },
            None => {},
        }
        assert(nodes_view(out@) + parsed_nodes(opt_nodes_view(v@)) =~= parsed_nodes(orig));
    }
    assert(nodes_view(out@) + Seq::<(Seq<u8>, bool, Option<usize>)>::empty() =~= nodes_view(out@));
    out
}

/// `Fdt::from_bytes(blob)`, then `find_nodes("/memory")`: for each node,
/// `None` when it or its `reg()` fails to parse, else the address and size
/// of each `reg` entry. The result is `fdt_memory_of(blob)`.
/// It requires `fdt_layout_ok(blob)`: on other blobs the parser can slice
/// past the blob's end, panic on a cell count other than 1 or 2, overflow
/// while translating through `ranges`, or loop without end.
#[verifier::external_body]
fn fdt_memory_ranges(blob: &[u8]) -> (r: Option<Vec<Option<Vec<(usize, Option<usize>)>>>>)
    requires
        fdt_layout_ok(blob@),
    ensures
        r is None <==> fdt_memory_of(blob@) is None,
        r matches Some(v) ==> fdt_memory_of(blob@) == Some(reg_lists_view(v@)),
{
    let fdt = Fdt::from_bytes(blob).ok()?;
    let mut out = Vec::new();
    for node in fdt.find_nodes("/memory") {
        out.push(match node.map(|node| node.reg()) {
            Ok(Ok(regs)) => Some(regs.map(|reg| (reg.address as usize, reg.size)).collect()),
            Ok(Err(_)) => None,
            Err(_) => None,
        });
    }
    Some(out)
}

/// `Fdt::from_bytes(blob)`, then `memory_reservation_blocks()`: the address
/// and size of every entry. The result is `fdt_rsv_block_of(blob)`.
/// It requires `fdt_layout_ok(blob)`: on other blobs the parser can slice
/// past the blob's end, panic on a cell count other than 1 or 2, overflow
/// while translating through `ranges`, or loop without end.
#[verifier::external_body]
fn fdt_reservation_block(blob: &[u8]) -> (r: Option<Vec<(usize, usize)>>)
    requires
        fdt_layout_ok(blob@),
    ensures
        r is None <==> fdt_rsv_block_of(blob@) is None,
        r matches Some(v) ==> fdt_rsv_block_of(blob@) == Some(v@),
{
    let fdt = Fdt::from_bytes(blob).ok()?;
    Some(fdt.memory_reservation_blocks().map(|r| (r.address as usize, r.size)).collect())
}

/// `Fdt::from_bytes(blob)`, then `reserved_memory_regions()`: `Err` when
/// it fails, else for each child `None` when it fails to parse, else its
/// first `reg` entry as address and size, if it has one. The result is
/// `fdt_rsv_nodes_of(blob)`.
/// It requires `fdt_layout_ok(blob)`: on other blobs the parser can slice
/// past the blob's end, panic on a cell count other than 1 or 2, overflow
/// while translating through `ranges`, or loop without end.
#[verifier::external_body]
fn fdt_reserved_nodes(blob: &[u8]) -> (r: Option<Result<Vec<Option<Option<(usize, Option<usize>)>>>, ()>>)
    requires
        fdt_layout_ok(blob@),
    ensures
        r is None <==> fdt_rsv_nodes_of(blob@) is None,
        r matches Some(Ok(v)) ==> fdt_rsv_nodes_of(blob@) == Some(Ok::<Seq<Option<Option<(usize, Option<usize>)>>>, ()>(v@)),
        r matches Some(Err(_)) ==> fdt_rsv_nodes_of(blob@) == Some(Err::<Seq<Option<Option<(usize, Option<usize>)>>>, ()>(())),
{
    let fdt = Fdt::from_bytes(blob).ok()?;
    let nodes = match fdt.reserved_memory_regions() {
        Ok(nodes) => nodes,
        Err(_) => return Some(Err(())),
    };
    let mut out = Vec::new();
    for node in nodes {
        out.push(match node {
            Ok(node) => Some(node.reg().ok().and_then(|mut r| r.next()).map(|reg| (reg.address as usize, reg.size))),
            Err(_) => None,
        });
    }
    Some(Ok(out))
}

/// The first `reg` entries of the nodes that parsed and have one, in order.
pub open spec fn present_regs(s: Seq<Option<Option<(usize, Option<usize>)>>>) -> Seq<(usize, Option<usize>)>
    decreases s.len(),
{
    if s.len() == 0 {
        Seq::empty()
    } else {
        match s.last() {
            Some(Some(reg)) => present_regs(s.drop_last()).push(reg),
            _ => present_regs(s.drop_last()),
        }
    }
}

/// Keeps the `reg` entries that are there.
fn keep_present(s: &[Option<Option<(usize, Option<usize>)>>]) -> (r: Vec<(usize, Option<usize>)>)
    ensures
        r@ == present_regs(s@),
{
    let mut out: Vec<(usize, Option<usize>)> = Vec::new();
    let mut i: usize = 0;
    while i < s.len()
        invariant
            i <= s.len(),
            out@ == present_regs(s@.take(i as int)),
        decreases s.len() - i,
    {
        proof {
            assert(s@.take(i as int + 1).drop_last() =~= s@.take(i as int));
        }
        match s[i] {
            Some(Some(reg)) => out.push(reg),
            _ => {},
        }
        i = i + 1;
    }
    assert(s@.take(s@.len() as int) =~= s@);
    out
}

/// `Fdt::from_bytes(blob)`, then `find_nodes("/cpus/cpu")`: for each node,
/// `None` when it fails to parse, else its name, whether its status reads
/// `Disabled`, and the address of its first `reg` entry. The result is
/// `fdt_cpu_nodes_of(blob)`.
/// It requires `fdt_layout_ok(blob)`: on other blobs the parser can slice
/// past the blob's end, panic on a cell count other than 1 or 2, overflow
/// while translating through `ranges`, or loop without end.
#[verifier::external_body]
fn fdt_cpu_nodes(blob: &[u8]) -> (r: Option<Vec<Option<CpuNode>>>)
    requires
        fdt_layout_ok(blob@),
    ensures
        r is None <==> fdt_cpu_nodes_of(blob@) is None,
        r matches Some(v) ==> fdt_cpu_nodes_of(blob@) == Some(opt_nodes_view(v@)),
{
    let fdt = Fdt::from_bytes(blob).ok()?;
    let mut out = Vec::new();
    for node in fdt.find_nodes("/cpus/cpu") {
        out.push(match node {
            Ok(node) => Some(CpuNode {
                name: node.name().as_bytes().to_vec(),
                disabled: matches!(node.status(), Ok(Status::Disabled)),
                reg: node.reg().ok().and_then(|mut r| r.next()).map(|r| r.address as usize),
            }),
            Err(_) => None,
        });
    }
    Some(out)
}

/// The hardware ids of the enabled CPUs of the device-tree blob `blob`;
/// `None` when the blob does not have the layout that the parser walks
/// safely, does not parse, or has an enabled CPU node without a `reg`
/// entry.
pub fn cpu_id_list(blob: &[u8]) -> (r: Option<Vec<usize>>)
    ensures
        !fdt_layout_ok(blob@) ==> r is None,
        fdt_layout_ok(blob@) ==> match fdt_cpu_nodes_of(blob@) {
            None => r is None,
            Some(ns) => if cpus_have_reg(parsed_nodes(ns)) {
                r matches Some(ids) && ids@ == cpu_ids(parsed_nodes(ns))
            } else {
                r is None
            },
        },
{
    if !check_fdt_layout(blob) {
        return None;
    }
    let nodes = match fdt_cpu_nodes(blob) {
        None => return None,
        Some(n) => keep_parsed(n),
    };
    if !check_cpus_have_reg(nodes.as_slice()) {
        return None;
    }
    Some(enabled_cpu_ids(nodes.as_slice()))
}

/// Whether no end address of the device tree's ranges overflows.
fn check_ranges(
    memory: &[(usize, usize)],
    rsv_block: &[(usize, usize)],
    rsv_nodes: &[(usize, Option<usize>)],
) -> (r: bool)
    ensures
        r == fdt_ranges_ok(memory@, rsv_block@, rsv_nodes@),
{
    let mut i: usize = 0;
    while i < memory.len()
        invariant
            i <= memory.len(),
            forall|k: int| 0 <= k < i ==> (#[trigger] memory@[k]).0 + memory@[k].1 <= usize::MAX,
        decreases memory.len() - i,
    {
        if memory[i].1 > usize::MAX - memory[i].0 {
            assert(!(memory@[i as int].0 + memory@[i as int].1 <= usize::MAX));
            return false;
        }
        i = i + 1;
    }
    let mut i: usize = 0;
    while i < rsv_block.len()
        invariant
            i <= rsv_block.len(),
            forall|k: int| 0 <= k < memory@.len() ==> (#[trigger] memory@[k]).0 + memory@[k].1 <= usize::MAX,
            forall|k: int| 0 <= k < i ==> (#[trigger] rsv_block@[k]).0 + rsv_block@[k].1 <= usize::MAX,
        decreases rsv_block.len() - i,
    {
        if rsv_block[i].1 > usize::MAX - rsv_block[i].0 {
            assert(!(rsv_block@[i as int].0 + rsv_block@[i as int].1 <= usize::MAX));
            return false;
        }
        i = i + 1;
    }
    let mut i: usize = 0;
    while i < rsv_nodes.len()
        invariant
            i <= rsv_nodes.len(),
            forall|k: int| 0 <= k < memory@.len() ==> (#[trigger] memory@[k]).0 + memory@[k].1 <= usize::MAX,
            forall|k: int| 0 <= k < rsv_block@.len() ==> (#[trigger] rsv_block@[k]).0 + rsv_block@[k].1 <= usize::MAX,
            forall|k: int| 0 <= k < i ==> ((#[trigger] rsv_nodes@[k]).1 matches Some(size) ==> rsv_nodes@[k].0 + size
                <= usize::MAX),
        decreases rsv_nodes.len() - i,
    {
        match rsv_nodes[i].1 {
            Some(size) => {
                if size > usize::MAX - rsv_nodes[i].0 {
                    assert(rsv_nodes@[i as int].1 == Some(size));
                    return false;
                }
            },
            None => {},
        }
        i = i + 1;
    }
    true
}

/// Adds the memory and reserved regions that the device-tree blob `blob`
/// describes to `regions`, as `find_rams` does; `None`, with `regions`
/// unchanged, when the blob does not have the layout that the parser walks
/// safely, does not parse, or a range's end overflows.
pub fn find_rams(regions: &mut MemoryRegionVec, blob: &[u8]) -> (r: Option<()>)
    requires
        region_list(*old(regions)).len() <= 128,
    ensures
        !fdt_layout_ok(blob@) ==> r is None && *final(regions) == *old(regions),
        fdt_layout_ok(blob@) ==> ({
            let m = fdt_memory_of(blob@);
            let b = fdt_rsv_block_of(blob@);
            let n = fdt_rsv_nodes_of(blob@);
            if m is None || b is None || n is None || !fdt_ranges_ok(mem_entries(m->0), b->0, rsv_regs(n->0)) {
                r is None && *final(regions) == *old(regions)
            } else {
                let added = fdt_regions(mem_entries(m->0), b->0, rsv_regs(n->0));
                &&& region_list(*final(regions)) == cap(region_list(*old(regions)) + added, 128)
                &&& (r is Some <==> region_list(*old(regions)).len() + added.len() <= 128)
            }
        }),
{
    if !check_fdt_layout(blob) {
        return None;
    }
    let memory = match fdt_memory_ranges(blob) {
        None => return None,
        Some(v) => memory_entries(&v),
    };
    let rsv_block = match fdt_reservation_block(blob) {
        None => return None,
        Some(v) => v,
    };
    let rsv_nodes = match fdt_reserved_nodes(blob) {
        None => return None,
        Some(Err(_)) => Vec::new(),
        Some(Ok(v)) => keep_present(v.as_slice()),
    };
    if !check_ranges(memory.as_slice(), rsv_block.as_slice(), rsv_nodes.as_slice()) {
        return None;
    }
    add_fdt_regions(regions, memory.as_slice(), rsv_block.as_slice(), rsv_nodes.as_slice())
}

/// Records the number of CPUs and adds the memory regions of the
/// device-tree blob `blob` to `regions`. When the blob does not have the
/// layout that the parser walks safely, does not parse, or has an enabled
/// CPU node without a `reg` entry, nothing is recorded and the result is
/// `None`; otherwise the regions are added as `find_rams` does.
pub fn setup_plat_info(
    cpu_num: &mut LazyStatic<usize>,
    regions: &mut MemoryRegionVec,
    blob: &[u8],
) -> (r: Option<()>)
    requires
        !old(cpu_num).is_initialized(),
        region_list(*old(regions)).len() <= 128,
    ensures
        !fdt_layout_ok(blob@) ==> r is None && *final(cpu_num) == *old(cpu_num) && *final(regions) == *old(regions),
        fdt_layout_ok(blob@) ==> match fdt_cpu_nodes_of(blob@) {
            Some(ns) if cpus_have_reg(parsed_nodes(ns)) => {
                let m = fdt_memory_of(blob@);
                let b = fdt_rsv_block_of(blob@);
                let n = fdt_rsv_nodes_of(blob@);
                &&& final(cpu_num).value() == Some(cpu_ids(parsed_nodes(ns)).len() as usize)
                &&& final(cpu_num).is_initialized()
                &&& if m is None || b is None || n is None || !fdt_ranges_ok(mem_entries(m->0), b->0, rsv_regs(n->0)) {
                    r is None && *final(regions) == *old(regions)
                } else {
                    let added = fdt_regions(mem_entries(m->0), b->0, rsv_regs(n->0));
                    &&& region_list(*final(regions)) == cap(region_list(*old(regions)) + added, 128)
                    &&& (r is Some <==> region_list(*old(regions)).len() + added.len() <= 128)
                }
            },
            _ => r is None && *final(cpu_num) == *old(cpu_num) && *final(regions) == *old(regions),
        },
{
    let ids = match cpu_id_list(blob) {
        None => return None,
        Some(ids) => ids,
    };
    cpu_num.init(ids.len());
    find_rams(regions, blob)
}

} // verus!

//! The stacks of the secondary CPUs, laid out after the kernel image.

use vstd::prelude::*;

use core::ops::Range;

use super::{MemoryRegion, MemoryRegionKind};
use crate::align::{align_up, align_up_spec};
use crate::hvec::{MemoryRegionVec, region_list, region_vec_push};

verus! {

/// Where the secondary CPUs' stacks lie: `[start, end)`, one slot of equal
/// size per CPU, each recorded with the id of its CPU and its start.
pub struct PercpuStacks {
    pub start: usize,
    pub end: usize,
    pub slots: Vec<(usize, usize)>,
}

/// The CPU ids other than the boot CPU's, in order.
pub open spec fn other_cpus(ids: Seq<usize>, boot: usize) -> Seq<usize>
    decreases ids.len(),
{
    if ids.len() == 0 {
        ids
    } else if ids.last() == boot {
        other_cpus(ids.drop_last(), boot)
    } else {
        other_cpus(ids.drop_last(), boot).push(ids.last())
    }
}

proof fn lemma_other_cpus_prefix(ids: Seq<usize>, boot: usize, i: int)
    requires
        0 <= i <= ids.len(),
    ensures
        other_cpus(ids.take(i), boot).len() <= other_cpus(ids, boot).len(),
    decreases ids.len(),
{
    if i < ids.len() {
        assert(ids.drop_last().take(i) =~= ids.take(i));
        lemma_other_cpus_prefix(ids.drop_last(), boot, i);
    } else {
        assert(ids.take(i) =~= ids);
    }
}

/// Lays out one stack per CPU other than the boot CPU from the first page
/// boundary at or after `free_memory_start`, each the boot stack's size
/// rounded up to a page, and reserves the memory from `free_memory_start`
/// to the end of the last stack.
pub fn init_percpu_stack(
    regions: &mut MemoryRegionVec,
    free_memory_start: usize,
    page_size: usize,
    stack0_len: usize,
    cpu_ids: &[usize],
    boot_cpu: usize,
) -> (r: PercpuStacks)
    requires
        page_size > 0,
        free_memory_start % page_size != 0 ==> free_memory_start + page_size <= usize::MAX,
        stack0_len % page_size != 0 ==> stack0_len + page_size <= usize::MAX,
        align_up_spec(free_memory_start, page_size) + other_cpus(cpu_ids@, boot_cpu).len()
            * align_up_spec(stack0_len, page_size) <= usize::MAX,
        region_list(*old(regions)).len() < 128,
    ensures
        r.start == align_up_spec(free_memory_start, page_size),
        r.end == r.start + other_cpus(cpu_ids@, boot_cpu).len() * align_up_spec(stack0_len, page_size),
        r.slots@.len() == other_cpus(cpu_ids@, boot_cpu).len(),
        forall|k: int| 0 <= k < r.slots@.len() ==> (#[trigger] r.slots@[k]).0 == other_cpus(cpu_ids@, boot_cpu)[k]
            && r.slots@[k].1 == r.start + k * align_up_spec(stack0_len, page_size),
        region_list(*final(regions)) == region_list(*old(regions)).push(
            MemoryRegion { kind: MemoryRegionKind::Reserved, start: free_memory_start, end: r.end },
        ),
        laid_out(r, align_up_spec(stack0_len, page_size)),
{
    let rsv_start = free_memory_start;
    let start = align_up(rsv_start, page_size);
    let per_size = align_up(stack0_len, page_size);
    let ghost others = other_cpus(cpu_ids@, boot_cpu);
    let ghost total = others.len();
    let mut rsv_end = start;
    let mut slots: Vec<(usize, usize)> = Vec::new();
    let mut i: usize = 0;
    while i < cpu_ids.len()
        invariant
            i <= cpu_ids.len(),
            others == other_cpus(cpu_ids@, boot_cpu),
            start + total * per_size <= usize::MAX,
            total == others.len(),
            slots@.len() == other_cpus(cpu_ids@.take(i as int), boot_cpu).len(),
            slots@.len() <= total,
            rsv_end == start + slots@.len() * per_size,
            forall|k: int| 0 <= k < slots@.len() ==> (#[trigger] slots@[k]).0 == other_cpus(cpu_ids@.take(i as int), boot_cpu)[k]
                && slots@[k].1 == start + k * per_size,
        decreases cpu_ids.len() - i,
    {
        let cpu_id = cpu_ids[i];
        proof {
            assert(cpu_ids@.take(i as int + 1).drop_last() =~= cpu_ids@.take(i as int));
            lemma_other_cpus_prefix(cpu_ids@, boot_cpu, i as int + 1);
        }
        if cpu_id != boot_cpu {
            let n = slots.len();
            proof {
                assert((n + 1) * per_size == n * per_size + per_size) by (nonlinear_arith);
                assert(n + 1 <= total);
                assert((n + 1) * per_size <= total * per_size) by (nonlinear_arith)
                    requires n + 1 <= total, per_size >= 0;
            }
            slots.push((cpu_id, rsv_end));
            rsv_end = rsv_end + per_size;
        }
        i = i + 1;
    }
    assert(cpu_ids@.take(cpu_ids@.len() as int) =~= cpu_ids@);
    let list = super::take_regions(regions);
    let pushed = region_vec_push(list, MemoryRegion { kind: MemoryRegionKind::Reserved, start: rsv_start, end: rsv_end });
    *regions = pushed.list;
    PercpuStacks { start, end: rsv_end, slots }
}

/// The CPU ids that have stacks: the boot CPU's, then those of the slots.
pub fn cpu_id_list(boot_cpu: usize, stacks: &PercpuStacks) -> (r: Vec<usize>)
    ensures
        r@.len() == stacks.slots@.len() + 1,
        r@[0] == boot_cpu,
        forall|k: int| 0 <= k < stacks.slots@.len() ==> r@[k + 1] == (#[trigger] stacks.slots@[k]).0,
{
    let mut ids: Vec<usize> = Vec::new();
    ids.push(boot_cpu);
    let mut i: usize = 0;
    while i < stacks.slots.len()
        invariant
            i <= stacks.slots@.len(),
            ids@.len() == i + 1,
            ids@[0] == boot_cpu,
            forall|k: int| 0 <= k < i ==> ids@[k + 1] == (#[trigger] stacks.slots@[k]).0,
        decreases stacks.slots@.len() - i,
    {
        ids.push(stacks.slots[i].0);
        i = i + 1;
    }
    ids
}

/// The stack of CPU `cpu_id`: the boot stack for the boot CPU, else the
/// first slot recorded for it, `per_size` bytes long.
pub fn cpu_stack(cpu_id: usize, boot_cpu: usize, stack0: Range<usize>, stacks: &PercpuStacks, per_size: usize) -> (r: Range<usize>)
    requires
        cpu_id == boot_cpu || exists|k: int| 0 <= k < stacks.slots@.len() && (#[trigger] stacks.slots@[k]).0 == cpu_id,
        forall|k: int| 0 <= k < stacks.slots@.len() ==> (#[trigger] stacks.slots@[k]).1 + per_size <= usize::MAX,
    ensures
        cpu_id == boot_cpu ==> r == stack0,
        cpu_id != boot_cpu ==> exists|k: int| 0 <= k < stacks.slots@.len() && (#[trigger] stacks.slots@[k]).0 == cpu_id
            && (forall|j: int| 0 <= j < k ==> stacks.slots@[j].0 != cpu_id) && r.start == stacks.slots@[k].1
            && r.end == stacks.slots@[k].1 + per_size,
{
    if cpu_id == boot_cpu {
        return stack0;
    }
    let mut i: usize = 0;
    while i < stacks.slots.len()
        invariant
            i <= stacks.slots@.len(),
            cpu_id != boot_cpu,
            exists|k: int| 0 <= k < stacks.slots@.len() && (#[trigger] stacks.slots@[k]).0 == cpu_id,
            forall|k: int| 0 <= k < stacks.slots@.len() ==> (#[trigger] stacks.slots@[k]).1 + per_size <= usize::MAX,
            forall|j: int| 0 <= j < i ==> (#[trigger] stacks.slots@[j]).0 != cpu_id,
        decreases stacks.slots@.len() - i,
    {
        let (id, start) = stacks.slots[i];
        if id == cpu_id {
            assert(stacks.slots@[i as int].0 == cpu_id);
            return start..start + per_size;
        }
        i = i + 1;
    }
    proof {
        let k = choose|k: int| 0 <= k < stacks.slots@.len() && (#[trigger] stacks.slots@[k]).0 == cpu_id;
        assert(stacks.slots@[k].0 != cpu_id);
    }
    vstd::pervasive::unreached()
}

/// The stacks are laid out as `init_percpu_stack` leaves them: slot `k`
/// starts `k` stack sizes after `start`, and `end` follows the last one.
pub open spec fn laid_out(stacks: PercpuStacks, per_size: int) -> bool {
    &&& stacks.end == stacks.start + stacks.slots@.len() * per_size
    &&& forall|k: int| 0 <= k < stacks.slots@.len() ==> #[trigger] stacks.slots@[k].1 == stacks.start + k * per_size
}

/// The stacks of two different slots do not overlap, and each lies inside
/// the reserved range `[start, end)`.
pub proof fn law_percpu_stacks_disjoint(stacks: PercpuStacks, per_size: int, k: int, j: int)
    requires
        laid_out(stacks, per_size),
        per_size >= 0,
        0 <= k < j < stacks.slots@.len(),
    ensures
        stacks.start <= stacks.slots@[k].1,
        stacks.slots@[k].1 + per_size <= stacks.slots@[j].1,
        stacks.slots@[j].1 + per_size <= stacks.end,
{
    let n = stacks.slots@.len() as int;
    assert(stacks.slots@[k].1 == stacks.start + k * per_size);
    assert(stacks.slots@[j].1 == stacks.start + j * per_size);
    assert(k * per_size >= 0) by (nonlinear_arith)
        requires k >= 0, per_size >= 0;
    assert(k * per_size + per_size <= j * per_size) by (nonlinear_arith)
        requires k < j, per_size >= 0;
    assert(j * per_size + per_size <= n * per_size) by (nonlinear_arith)
        requires j < n, per_size >= 0;
}

} // verus!

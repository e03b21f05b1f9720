//! Cutting the non-RAM regions (reserved, bootloader, firmware) out of the RAM
//! regions.

use vstd::prelude::*;

use super::{MemoryRegion, MemoryRegionKind};
use crate::hvec::{
    MemoryRegionVec, range_list16, range_list32, range_list64, ranges16_as_slice, ranges16_new,
    ranges16_push, ranges32_as_slice, ranges32_new, ranges32_push, ranges64_as_slice, ranges64_new,
    ranges64_push, region_list, region_list8, region_vec_as_slice, region_vec_clear,
    region_vec_push, regions8_as_slice, regions8_new, regions8_push,
};

verus! {

/// The first `n` items of `s`, or all of them when there are fewer: what a
/// bounded list of capacity `n` keeps of a sequence of pushes.
pub open spec fn cap<T>(s: Seq<T>, n: nat) -> Seq<T> {
    if s.len() <= n {
        s
    } else {
        s.take(n as int)
    }
}

proof fn lemma_cap_push<T>(s: Seq<T>, y: T, n: nat)
    ensures
        cap(s.push(y), n) == (if cap(s, n).len() < n { cap(s, n).push(y) } else { cap(s, n) }),
{
    if s.len() < n {
        assert(cap(s.push(y), n) =~= s.push(y));
    } else {
        assert(cap(s.push(y), n) =~= s.take(n as int));
        assert(cap(s, n) =~= s.take(n as int));
    }
}

pub open spec fn max_u(a: usize, b: usize) -> usize {
    if a >= b { a } else { b }
}

pub open spec fn min_u(a: usize, b: usize) -> usize {
    if a <= b { a } else { b }
}

/// Inserts `x` after every range whose start is not above `x.0`.
pub open spec fn insert_by_first(sorted: Seq<(usize, usize)>, x: (usize, usize)) -> Seq<(usize, usize)>
    decreases sorted.len(),
{
    if sorted.len() == 0 {
        seq![x]
    } else if sorted.last().0 <= x.0 {
        sorted.push(x)
    } else {
        insert_by_first(sorted.drop_last(), x).push(sorted.last())
    }
}

/// The stable sort of `s` by range start.
pub open spec fn sort_by_first(s: Seq<(usize, usize)>) -> Seq<(usize, usize)>
    decreases s.len(),
{
    if s.len() == 0 {
        s
    } else {
        insert_by_first(sort_by_first(s.drop_last()), s.last())
    }
}

proof fn lemma_insert_pair_at(s: Seq<(usize, usize)>, x: (usize, usize), j: int)
    requires
        0 <= j <= s.len(),
        forall|k: int| j <= k < s.len() ==> s[k].0 > x.0,
        j > 0 ==> s[j - 1].0 <= x.0,
    ensures
        insert_by_first(s, x) == s.insert(j, x),
    decreases s.len(),
{
    if s.len() == 0 {
        assert(s.insert(j, x) =~= seq![x]);
    } else if s.last().0 <= x.0 {
        assert(s.insert(j, x) =~= s.push(x));
    } else {
        lemma_insert_pair_at(s.drop_last(), x, j);
        assert(s.drop_last().insert(j, x).push(s.last()) =~= s.insert(j, x));
    }
}

proof fn lemma_sort_pairs_len(s: Seq<(usize, usize)>)
    ensures
        sort_by_first(s).len() == s.len(),
    decreases s.len(),
{
    if s.len() > 0 {
        lemma_sort_pairs_len(s.drop_last());
        lemma_insert_pairs_len(sort_by_first(s.drop_last()), s.last());
    }
}

proof fn lemma_insert_pairs_len(s: Seq<(usize, usize)>, x: (usize, usize))
    ensures
        insert_by_first(s, x).len() == s.len() + 1,
    decreases s.len(),
{
    if s.len() > 0 && s.last().0 > x.0 {
        lemma_insert_pairs_len(s.drop_last(), x);
    }
}

/// Sorts ranges by their start, stably.
pub fn sort_ranges(v: &Vec<(usize, usize)>) -> (r: Vec<(usize, usize)>)
    ensures
        r@ == sort_by_first(v@),
{
    let mut out: Vec<(usize, usize)> = Vec::new();
    let mut i: usize = 0;
    while i < v.len()
        invariant
            i <= v.len(),
            out@ == sort_by_first(v@.take(i as int)),
        decreases v.len() - i,
    {
        let x = v[i];
        let mut j: usize = out.len();
        while j > 0 && out[j - 1].0 > x.0
            invariant
                j <= out.len(),
                forall|k: int| j <= k < out.len() ==> out@[k].0 > x.0,
            decreases j,
        {
            j = j - 1;
        }
        proof {
            lemma_insert_pair_at(out@, x, j as int);
            assert(v@.take(i as int + 1).drop_last() =~= v@.take(i as int));
        }
        out.insert(j, x);
        i = i + 1;
    }
    assert(v@.take(v.len() as int) =~= v@);
    out
}

/// The hole clipped to `[rs, re)`.
pub open spec fn clip(h: (usize, usize), rs: usize, re: usize) -> (usize, usize) {
    (max_u(h.0, rs), min_u(h.1, re))
}

/// The hole reaches into `[rs, re)`.
pub open spec fn hole_overlaps(h: (usize, usize), rs: usize, re: usize) -> bool {
    h.0 < re && h.1 > rs
}

/// Every hole that reaches into `[rs, re)`, clipped to it, in order.
pub open spec fn relevant_all(holes: Seq<(usize, usize)>, rs: usize, re: usize) -> Seq<(usize, usize)>
    decreases holes.len(),
{
    if holes.len() == 0 {
        holes
    } else if hole_overlaps(holes.last(), rs, re) {
        relevant_all(holes.drop_last(), rs, re).push(clip(holes.last(), rs, re))
    } else {
        relevant_all(holes.drop_last(), rs, re)
    }
}

/// The fragments found, and the first address not yet passed, after walking
/// over `holes` from `rs`.
pub open spec fn frag_fold(holes: Seq<(usize, usize)>, rs: usize) -> (Seq<(usize, usize)>, usize)
    decreases holes.len(),
{
    if holes.len() == 0 {
        (Seq::empty(), rs)
    } else {
        let (f, c) = frag_fold(holes.drop_last(), rs);
        let h = holes.last();
        (if c < h.0 { f.push((c, h.0)) } else { f }, max_u(c, h.1))
    }
}

/// The parts of `[rs, re)` between the holes, which are sorted by start.
pub open spec fn fragments_all(sorted: Seq<(usize, usize)>, rs: usize, re: usize) -> Seq<(usize, usize)> {
    let (f, c) = frag_fold(sorted, rs);
    if c < re { f.push((c, re)) } else { f }
}

/// What `subtract_holes_from_range` returns: the parts of `[rs, re)` outside
/// the holes, as far as 32 relevant holes and 16 fragments go.
pub open spec fn subtract_holes(rs: usize, re: usize, holes: Seq<(usize, usize)>) -> Seq<(usize, usize)> {
    let rel = cap(relevant_all(holes, rs, re), 32);
    if rel.len() == 0 {
        seq![(rs, re)]
    } else {
        cap(fragments_all(sort_by_first(rel), rs, re), 16)
    }
}

/// Subtracts the holes from `[range_start, range_end)` and returns the
/// fragments that remain.
///
/// The holes that reach into the range are clipped to it and sorted; the
/// first 32 of them are used and at most 16 fragments are returned.
pub fn subtract_holes_from_range(
    range_start: usize,
    range_end: usize,
    holes: &heapless::Vec<(usize, usize), 64>,
) -> (r: heapless::Vec<(usize, usize), 16>)
    ensures
        range_list16(r) == subtract_holes(range_start, range_end, range_list64(*holes)),
{
    let hs = ranges64_as_slice(holes);
    let mut fragments = ranges16_new();
    let mut relevant = ranges32_new();
    let mut i: usize = 0;
    while i < hs.len()
        invariant
            i <= hs.len(),
            hs@ == range_list64(*holes),
            range_list16(fragments) == Seq::<(usize, usize)>::empty(),
            range_list32(relevant) == cap(relevant_all(hs@.take(i as int), range_start, range_end), 32),
        decreases hs.len() - i,
    {
        let (hole_start, hole_end) = hs[i];
        proof {
            assert(hs@.take(i as int + 1).drop_last() =~= hs@.take(i as int));
        }
        if hole_start < range_end && hole_end > range_start {
            let actual_start = if hole_start >= range_start { hole_start } else { range_start };
            let actual_end = if hole_end <= range_end { hole_end } else { range_end };
            proof {
                lemma_cap_push(relevant_all(hs@.take(i as int), range_start, range_end),
                    (actual_start, actual_end), 32);
            }
            let pushed = ranges32_push(relevant, (actual_start, actual_end));
            relevant = pushed.list;
        }
        i = i + 1;
    }
    assert(hs@.take(hs@.len() as int) =~= hs@);
    let rel = ranges32_as_slice(&relevant);
    if rel.len() == 0 {
        let pushed = ranges16_push(fragments, (range_start, range_end));
        assert(range_list16(pushed.list) =~= seq![(range_start, range_end)]);
        return pushed.list;
    }
    let mut rel_v: Vec<(usize, usize)> = Vec::new();
    let mut k: usize = 0;
    while k < rel.len()
        invariant
            k <= rel.len(),
            rel_v@ == rel@.take(k as int),
        decreases rel.len() - k,
    {
        rel_v.push(rel[k]);
        k = k + 1;
        assert(rel_v@ =~= rel@.take(k as int));
    }
    assert(rel@.take(rel@.len() as int) =~= rel@);
    let sorted = sort_ranges(&rel_v);
    let mut current = range_start;
    let mut j: usize = 0;
    while j < sorted.len()
        invariant
            j <= sorted.len(),
            range_list16(fragments) == cap(frag_fold(sorted@.take(j as int), range_start).0, 16),
            current == frag_fold(sorted@.take(j as int), range_start).1,
        decreases sorted.len() - j,
    {
        let (hole_start, hole_end) = sorted[j];
        proof {
            assert(sorted@.take(j as int + 1).drop_last() =~= sorted@.take(j as int));
        }
        if current < hole_start {
            proof {
                lemma_cap_push(frag_fold(sorted@.take(j as int), range_start).0, (current, hole_start), 16);
            }
            let pushed = ranges16_push(fragments, (current, hole_start));
            fragments = pushed.list;
        }
        current = if current >= hole_end { current } else { hole_end };
        j = j + 1;
    }
    assert(sorted@.take(sorted@.len() as int) =~= sorted@);
    if current < range_end {
        proof {
            lemma_cap_push(frag_fold(sorted@, range_start).0, (current, range_end), 16);
        }
        let pushed = ranges16_push(fragments, (current, range_end));
        fragments = pushed.list;
    }
    fragments
}

} // verus!

verus! {

/// The `(start, end)` of every non-RAM region, in order.
pub open spec fn non_ram_ranges(s: Seq<MemoryRegion>) -> Seq<(usize, usize)>
    decreases s.len(),
{
    if s.len() == 0 {
        Seq::empty()
    } else if !(s.last().kind is Ram) {
        non_ram_ranges(s.drop_last()).push((s.last().start, s.last().end))
    } else {
        non_ram_ranges(s.drop_last())
    }
}

/// The non-RAM regions, in order.
pub open spec fn non_ram_regions(s: Seq<MemoryRegion>) -> Seq<MemoryRegion>
    decreases s.len(),
{
    if s.len() == 0 {
        s
    } else if !(s.last().kind is Ram) {
        non_ram_regions(s.drop_last()).push(s.last())
    } else {
        non_ram_regions(s.drop_last())
    }
}

/// The RAM regions, in order.
pub open spec fn ram_regions(s: Seq<MemoryRegion>) -> Seq<MemoryRegion>
    decreases s.len(),
{
    if s.len() == 0 {
        s
    } else if s.last().kind is Ram {
        ram_regions(s.drop_last()).push(s.last())
    } else {
        ram_regions(s.drop_last())
    }
}

/// The merged holes so far, and the hole being grown, after folding the
/// non-empty `s` (sorted by start): a hole that starts at or before the end
/// of the current one extends it.
pub open spec fn hole_fold(s: Seq<(usize, usize)>) -> (Seq<(usize, usize)>, (usize, usize))
    decreases s.len(),
{
    if s.len() <= 1 {
        (Seq::empty(), s[0])
    } else {
        let (m, c) = hole_fold(s.drop_last());
        let h = s.last();
        if h.0 <= c.1 {
            (m, (c.0, max_u(c.1, h.1)))
        } else {
            (m.push(c), h)
        }
    }
}

/// The sorted holes with overlapping or touching ones joined.
pub open spec fn merged_holes(s: Seq<(usize, usize)>) -> Seq<(usize, usize)> {
    if s.len() == 0 {
        s
    } else {
        let (m, c) = hole_fold(s);
        m.push(c)
    }
}

/// RAM regions for the given ranges.
pub open spec fn ram_of(f: Seq<(usize, usize)>) -> Seq<MemoryRegion> {
    Seq::new(f.len(), |i: int| MemoryRegion { kind: MemoryRegionKind::Ram, start: f[i].0, end: f[i].1 })
}

/// The fragments of every RAM region left after the holes, in order.
pub open spec fn ram_fragments(rams: Seq<MemoryRegion>, holes: Seq<(usize, usize)>) -> Seq<MemoryRegion>
    decreases rams.len(),
{
    if rams.len() == 0 {
        Seq::empty()
    } else {
        ram_fragments(rams.drop_last(), holes) + ram_of(
            subtract_holes(rams.last().start, rams.last().end, holes),
        )
    }
}

/// The holes that `subtract_non_ram_from_ram` cuts out of the RAM.
pub open spec fn holes_of(s: Seq<MemoryRegion>) -> Seq<(usize, usize)> {
    merged_holes(sort_by_first(non_ram_ranges(s)))
}

/// The region list after `subtract_non_ram_from_ram`: the non-RAM regions,
/// then the RAM fragments, as far as 128 regions go.
pub open spec fn subtracted(s: Seq<MemoryRegion>) -> Seq<MemoryRegion> {
    if non_ram_ranges(s).len() == 0 {
        s
    } else {
        cap(non_ram_regions(s) + ram_fragments(ram_regions(s), holes_of(s)), 128)
    }
}

proof fn lemma_non_ram_prefix(s: Seq<MemoryRegion>, i: int)
    requires
        0 <= i <= s.len(),
    ensures
        non_ram_ranges(s.take(i)).len() <= non_ram_ranges(s).len(),
        ram_regions(s.take(i)).len() <= ram_regions(s).len(),
    decreases s.len(),
{
    if i < s.len() {
        assert(s.drop_last().take(i) =~= s.take(i));
        lemma_non_ram_prefix(s.drop_last(), i);
    } else {
        assert(s.take(i) =~= s);
    }
}

proof fn lemma_hole_fold_len(s: Seq<(usize, usize)>)
    requires
        s.len() >= 1,
    ensures
        hole_fold(s).0.len() <= s.len() - 1,
    decreases s.len(),
{
    if s.len() > 1 {
        lemma_hole_fold_len(s.drop_last());
    }
}

/// Removes from the RAM regions every part that a non-RAM region covers.
///
/// The non-RAM ranges are sorted and joined where they overlap or touch; each
/// RAM region is replaced by its fragments outside them. At most 64 non-RAM
/// and 8 RAM regions are accepted; fragments beyond the list's capacity are
/// dropped.
pub fn subtract_non_ram_from_ram(regions: &mut MemoryRegionVec)
    requires
        non_ram_ranges(region_list(*old(regions))).len() <= 64,
        ram_regions(region_list(*old(regions))).len() <= 8,
    ensures
        region_list(*final(regions)) == subtracted(region_list(*old(regions))),
{
    let ghost s0 = region_list(*regions);
    let items = super::copy_regions(region_vec_as_slice(regions));
    let mut non_ram = ranges64_new();
    let mut i: usize = 0;
    while i < items.len()
        invariant
            i <= items.len(),
            items@ == s0,
            non_ram_ranges(s0).len() <= 64,
            range_list64(non_ram) == non_ram_ranges(s0.take(i as int)),
        decreases items.len() - i,
    {
        let r = items[i];
        proof {
            assert(s0.take(i as int + 1).drop_last() =~= s0.take(i as int));
            lemma_non_ram_prefix(s0, i as int + 1);
        }
        match r.kind {
            MemoryRegionKind::Ram => {},
            _ => {
                let pushed = ranges64_push(non_ram, (r.start, r.end));
                non_ram = pushed.list;
            },
        }
        i = i + 1;
    }
    assert(s0.take(s0.len() as int) =~= s0);
    let nr = ranges64_as_slice(&non_ram);
    if nr.len() == 0 {
        return;
    }
    let mut nr_v: Vec<(usize, usize)> = Vec::new();
    let mut k: usize = 0;
    while k < nr.len()
        invariant
            k <= nr.len(),
            nr_v@ == nr@.take(k as int),
        decreases nr.len() - k,
    {
        nr_v.push(nr[k]);
        k = k + 1;
        assert(nr_v@ =~= nr@.take(k as int));
    }
    assert(nr@.take(nr@.len() as int) =~= nr@);
    let sorted = sort_ranges(&nr_v);
    proof {
        lemma_sort_pairs_len(nr_v@);
    }
    let mut merged = ranges64_new();
    let mut current = sorted[0];
    assert(sorted@.take(1) =~= seq![sorted@[0]]);
    let mut j: usize = 1;
    while j < sorted.len()
        invariant
            1 <= j <= sorted.len(),
            sorted.len() <= 64,
            hole_fold(sorted@.take(j as int)) == (range_list64(merged), current),
        decreases sorted.len() - j,
    {
        let (start, end) = sorted[j];
        proof {
            assert(sorted@.take(j as int + 1).drop_last() =~= sorted@.take(j as int));
            lemma_hole_fold_len(sorted@.take(j as int));
        }
        if start <= current.1 {
            current = (current.0, if current.1 >= end { current.1 } else { end });
        } else {
            let pushed = ranges64_push(merged, current);
            merged = pushed.list;
            current = (start, end);
        }
        j = j + 1;
    }
    assert(sorted@.take(sorted@.len() as int) =~= sorted@);
    proof {
        lemma_hole_fold_len(sorted@);
    }
    let pushed = ranges64_push(merged, current);
    let merged = pushed.list;
    assert(range_list64(merged) == holes_of(s0));

    let mut ram_list = regions8_new();
    let mut i: usize = 0;
    while i < items.len()
        invariant
            i <= items.len(),
            items@ == s0,
            ram_regions(s0).len() <= 8,
            region_list8(ram_list) == ram_regions(s0.take(i as int)),
        decreases items.len() - i,
    {
        let r = items[i];
        proof {
            assert(s0.take(i as int + 1).drop_last() =~= s0.take(i as int));
            lemma_non_ram_prefix(s0, i as int + 1);
        }
        match r.kind {
            MemoryRegionKind::Ram => {
                let pushed = regions8_push(ram_list, r);
                ram_list = pushed.list;
            },
            _ => {},
        }
        i = i + 1;
    }
    assert(s0.take(s0.len() as int) =~= s0);

    let mut kept: Vec<MemoryRegion> = Vec::new();
    let mut i: usize = 0;
    while i < items.len()
        invariant
            i <= items.len(),
            items@ == s0,
            kept@ == non_ram_regions(s0.take(i as int)),
            kept@.len() <= i,
        decreases items.len() - i,
    {
        let r = items[i];
        proof {
            assert(s0.take(i as int + 1).drop_last() =~= s0.take(i as int));
        }
        match r.kind {
            MemoryRegionKind::Ram => {},
            _ => {
                kept.push(r);
            },
        }
        i = i + 1;
    }
    assert(s0.take(s0.len() as int) =~= s0);
    let mut list = super::take_regions(regions);
    list = region_vec_clear(list);
    list = super::push_all(list, &kept);
    assert(region_list(list) =~= cap(non_ram_regions(s0) + ram_fragments(ram_regions(s0).take(0), holes_of(s0)), 128)) by {
        assert(ram_fragments(ram_regions(s0).take(0), holes_of(s0)) =~= Seq::<MemoryRegion>::empty());
        assert(non_ram_regions(s0) + Seq::<MemoryRegion>::empty() =~= non_ram_regions(s0));
    }

    let rams = regions8_as_slice(&ram_list);
    let ghost nrr = non_ram_regions(s0);
    let ghost holes = holes_of(s0);
    let mut m: usize = 0;
    while m < rams.len()
        invariant
            m <= rams.len(),
            rams@ == ram_regions(s0),
            range_list64(merged) == holes,
            region_list(list) == cap(nrr + ram_fragments(rams@.take(m as int), holes), 128),
        decreases rams.len() - m,
    {
        let ram = rams[m];
        let fragments = subtract_holes_from_range(ram.start, ram.end, &merged);
        let fs = ranges16_as_slice(&fragments);
        let ghost before = nrr + ram_fragments(rams@.take(m as int), holes);
        let mut q: usize = 0;
        while q < fs.len()
            invariant
                q <= fs.len(),
                region_list(list) == cap(before + ram_of(fs@.take(q as int)), 128),
            decreases fs.len() - q,
        {
            let (start, end) = fs[q];
            let nw = MemoryRegion { kind: MemoryRegionKind::Ram, start, end };
            proof {
                lemma_cap_push(before + ram_of(fs@.take(q as int)), nw, 128);
                assert((before + ram_of(fs@.take(q as int))).push(nw) =~= before + ram_of(fs@.take(q as int + 1)));
            }
            let pushed = region_vec_push(list, nw);
            list = pushed.list;
            q = q + 1;
        }
        proof {
            assert(fs@.take(fs@.len() as int) =~= fs@);
            assert(rams@.take(m as int + 1).drop_last() =~= rams@.take(m as int));
            assert(before + ram_of(fs@) =~= nrr + ram_fragments(rams@.take(m as int + 1), holes));
        }
        m = m + 1;
    }
    assert(rams@.take(rams@.len() as int) =~= rams@);
    *regions = list;
}

} // verus!

verus! {

/// Ascending by range start.
pub open spec fn sorted_by_first(s: Seq<(usize, usize)>) -> bool {
    forall|i: int, j: int| 0 <= i <= j < s.len() ==> s[i].0 <= s[j].0
}

/// Address `a` lies in some range of `s`.
pub open spec fn in_ranges(s: Seq<(usize, usize)>, a: int) -> bool {
    exists|i: int| 0 <= i < s.len() && (#[trigger] s[i]).0 <= a < s[i].1
}

/// Every range has `start <= end`.
pub open spec fn ranges_wf(s: Seq<(usize, usize)>) -> bool {
    forall|i: int| 0 <= i < s.len() ==> (#[trigger] s[i]).0 <= s[i].1
}

proof fn lemma_insert_pair_sorted(s: Seq<(usize, usize)>, x: (usize, usize))
    requires
        sorted_by_first(s),
    ensures
        sorted_by_first(insert_by_first(s, x)),
        insert_by_first(s, x).to_multiset() == s.to_multiset().insert(x),
    decreases s.len(),
{
    broadcast use vstd::seq_lib::group_to_multiset_ensures;
    if s.len() == 0 {
        assert(seq![x] =~= Seq::<(usize, usize)>::empty().push(x));
    } else if s.last().0 <= x.0 {
    } else {
        lemma_insert_pair_sorted(s.drop_last(), x);
        let t = insert_by_first(s.drop_last(), x);
        assert(s.drop_last().push(s.last()) =~= s);
        assert forall|i: int, j: int| 0 <= i <= j < t.push(s.last()).len() implies
            t.push(s.last())[i].0 <= t.push(s.last())[j].0 by {
            if j == t.len() && i < t.len() {
                assert(t.to_multiset().count(t[i]) > 0);
                assert(s.drop_last().to_multiset().insert(x).count(t[i]) > 0);
                if t[i] != x {
                    assert(s.drop_last().to_multiset().count(t[i]) > 0);
                    assert(s.drop_last().contains(t[i]));
                    let k = choose|k: int| 0 <= k < s.drop_last().len() && s.drop_last()[k] == t[i];
                    assert(s[k] == t[i]);
                }
            }
        }
    }
}

/// `sort_by_first` yields a sorted permutation.
pub proof fn lemma_sort_by_first(s: Seq<(usize, usize)>)
    ensures
        sorted_by_first(sort_by_first(s)),
        sort_by_first(s).to_multiset() == s.to_multiset(),
    decreases s.len(),
{
    broadcast use vstd::seq_lib::group_to_multiset_ensures;
    if s.len() > 0 {
        lemma_sort_by_first(s.drop_last());
        lemma_insert_pair_sorted(sort_by_first(s.drop_last()), s.last());
        assert(s.drop_last().push(s.last()) =~= s);
    }
}

proof fn lemma_in_ranges_push(s: Seq<(usize, usize)>, x: (usize, usize), a: int)
    ensures
        in_ranges(s.push(x), a) <==> (in_ranges(s, a) || (x.0 <= a < x.1)),
{
    if in_ranges(s, a) {
        let i = choose|i: int| 0 <= i < s.len() && (#[trigger] s[i]).0 <= a < s[i].1;
        assert(s.push(x)[i] == s[i]);
    }
    if x.0 <= a < x.1 {
        assert(s.push(x)[s.len() as int] == x);
    }
    if in_ranges(s.push(x), a) {
        let i = choose|i: int| 0 <= i < s.push(x).len() && (#[trigger] s.push(x)[i]).0 <= a < s.push(x)[i].1;
        if i < s.len() {
            assert(s[i] == s.push(x)[i]);
        }
    }
}

proof fn lemma_in_ranges_same_multiset(s: Seq<(usize, usize)>, t: Seq<(usize, usize)>, a: int)
    requires
        s.to_multiset() == t.to_multiset(),
    ensures
        in_ranges(s, a) <==> in_ranges(t, a),
{
    broadcast use vstd::seq_lib::group_to_multiset_ensures;
    if in_ranges(s, a) {
        let i = choose|i: int| 0 <= i < s.len() && (#[trigger] s[i]).0 <= a < s[i].1;
        assert(s.to_multiset().count(s[i]) > 0);
        assert(t.contains(s[i]));
        let j = choose|j: int| 0 <= j < t.len() && t[j] == s[i];
        assert(t[j].0 <= a < t[j].1);
    }
    if in_ranges(t, a) {
        let i = choose|i: int| 0 <= i < t.len() && (#[trigger] t[i]).0 <= a < t[i].1;
        assert(t.to_multiset().count(t[i]) > 0);
        assert(s.contains(t[i]));
        let j = choose|j: int| 0 <= j < s.len() && s[j] == t[i];
        assert(s[j].0 <= a < s[j].1);
    }
}

/// Walking the sorted holes from `rs`: below the walk's position the
/// fragments cover exactly what the holes leave free, and nothing from the
/// position on is covered by a hole or a fragment.
proof fn lemma_frag_fold(h: Seq<(usize, usize)>, rs: usize, a: int)
    requires
        sorted_by_first(h),
        ranges_wf(h),
        forall|i: int| 0 <= i < h.len() ==> rs <= (#[trigger] h[i]).0,
        rs <= a,
    ensures
        frag_fold(h, rs).1 >= rs,
        a < frag_fold(h, rs).1 ==> (in_ranges(frag_fold(h, rs).0, a) <==> !in_ranges(h, a)),
        a >= frag_fold(h, rs).1 ==> !in_ranges(frag_fold(h, rs).0, a) && !in_ranges(h, a),
        frag_fold(h, rs).0.len() <= h.len(),
        h.len() > 0 ==> frag_fold(h, rs).1 >= h.last().1,
        h.len() > 0 ==> forall|j: int| 0 <= j < frag_fold(h, rs).0.len() ==> (#[trigger] frag_fold(h, rs).0[j]).1 <= h.last().0,
        forall|j: int| 0 <= j < frag_fold(h, rs).0.len() ==> (#[trigger] frag_fold(h, rs).0[j]).0 < frag_fold(h, rs).0[j].1,
        forall|j: int| 0 <= j < frag_fold(h, rs).0.len() ==> rs <= (#[trigger] frag_fold(h, rs).0[j]).0,
    decreases h.len(),
{
    if h.len() > 0 {
        let p = h.drop_last();
        assert(sorted_by_first(p));
        assert(ranges_wf(p)) by {
            assert forall|i: int| 0 <= i < p.len() implies (#[trigger] p[i]).0 <= p[i].1 by {
                assert(h[i].0 <= h[i].1);
            }
        }
        assert forall|i: int| 0 <= i < p.len() implies rs <= (#[trigger] p[i]).0 by {
            assert(rs <= h[i].0);
        }
        lemma_frag_fold(p, rs, a);
        let (f, c) = frag_fold(p, rs);
        let x = h.last();
        assert(x.0 <= x.1);
        assert(rs <= x.0);
        assert(p.push(x) =~= h);
        lemma_in_ranges_push(p, x, a);
        if c < x.0 {
            lemma_in_ranges_push(f, (c, x.0), a);
        }
        // every earlier hole ends at or before `c`
        if p.len() > 0 {
            assert forall|i: int| 0 <= i < p.len() implies (#[trigger] p[i]).1 <= c by {
                lemma_frag_fold_ends(p, rs, i);
            }
            assert(p.last().0 <= x.0);
        }
        let (f2, c2) = frag_fold(h, rs);
        if a >= c && a < c2 {
            assert(!in_ranges(f, a) && !in_ranges(p, a));
        } else if a < c {
            if x.0 <= a {
                assert(!in_ranges(f, a)) by {
                    if in_ranges(f, a) {
                        let j = choose|j: int| 0 <= j < f.len() && (#[trigger] f[j]).0 <= a < f[j].1;
                        assert(f[j].1 <= p.last().0);
                    }
                }
            }
        }
    }
}

proof fn lemma_frag_fold_ends(h: Seq<(usize, usize)>, rs: usize, i: int)
    requires
        0 <= i < h.len(),
    ensures
        h[i].1 <= frag_fold(h, rs).1,
    decreases h.len(),
{
    if i < h.len() - 1 {
        lemma_frag_fold_ends(h.drop_last(), rs, i);
    }
}

proof fn lemma_relevant(holes: Seq<(usize, usize)>, rs: usize, re: usize, a: int)
    requires
        rs <= re,
        ranges_wf(holes),
    ensures
        rs <= a < re ==> (in_ranges(relevant_all(holes, rs, re), a) <==> in_ranges(holes, a)),
        ranges_wf(relevant_all(holes, rs, re)),
        forall|i: int| 0 <= i < relevant_all(holes, rs, re).len() ==> rs <= (#[trigger] relevant_all(holes, rs, re)[i]).0
            && relevant_all(holes, rs, re)[i].0 <= re,
        relevant_all(holes, rs, re).len() <= holes.len(),
    decreases holes.len(),
{
    if holes.len() > 0 {
        let p = holes.drop_last();
        assert(ranges_wf(p)) by {
            assert forall|i: int| 0 <= i < p.len() implies (#[trigger] p[i]).0 <= p[i].1 by {
                assert(holes[i].0 <= holes[i].1);
            }
        }
        lemma_relevant(p, rs, re, a);
        let x = holes.last();
        assert(x.0 <= x.1);
        assert(p.push(x) =~= holes);
        lemma_in_ranges_push(p, x, a);
        if hole_overlaps(x, rs, re) {
            lemma_in_ranges_push(relevant_all(p, rs, re), clip(x, rs, re), a);
        }
    }
}

/// Law: a range minus holes keeps exactly the addresses of the range that no
/// hole covers, when no more than 32 holes reach into the range and no more
/// than 16 fragments result.
pub proof fn law_subtract_holes(rs: usize, re: usize, holes: Seq<(usize, usize)>, a: int)
    requires
        rs <= re,
        ranges_wf(holes),
        relevant_all(holes, rs, re).len() <= 32,
        fragments_all(sort_by_first(relevant_all(holes, rs, re)), rs, re).len() <= 16,
    ensures
        in_ranges(subtract_holes(rs, re, holes), a) <==> (rs <= a < re && !in_ranges(holes, a)),
{
    let rel = relevant_all(holes, rs, re);
    assert(cap(rel, 32) == rel);
    if rel.len() == 0 {
        lemma_in_ranges_push(Seq::<(usize, usize)>::empty(), (rs, re), a);
        assert(seq![(rs, re)] =~= Seq::<(usize, usize)>::empty().push((rs, re)));
        if rs <= a < re {
            lemma_relevant(holes, rs, re, a);
        }
    } else {
        let sorted = sort_by_first(rel);
        lemma_sort_by_first(rel);
        let bound = if a < rs { rs as int } else { a };
        lemma_relevant(holes, rs, re, a);
        lemma_in_ranges_same_multiset(sorted, rel, a);
        broadcast use vstd::seq_lib::group_to_multiset_ensures;
        assert forall|i: int| 0 <= i < sorted.len() implies (#[trigger] sorted[i]).0 <= sorted[i].1
            && rs <= sorted[i].0 && sorted[i].0 <= re by {
            assert(sorted.to_multiset().count(sorted[i]) > 0);
            assert(rel.contains(sorted[i]));
            let k = choose|k: int| 0 <= k < rel.len() && rel[k] == sorted[i];
            assert(rel[k].0 <= rel[k].1);
        }
        assert(ranges_wf(sorted));
        lemma_frag_fold(sorted, rs, bound);
        let (f, c) = frag_fold(sorted, rs);
        let frags = fragments_all(sorted, rs, re);
        assert(cap(frags, 16) == frags);
        if c < re {
            lemma_in_ranges_push(f, (c, re), a);
        }
        if a < rs {
            assert(!in_ranges(f, a)) by {
                if in_ranges(f, a) {
                    let j = choose|j: int| 0 <= j < f.len() && (#[trigger] f[j]).0 <= a < f[j].1;
                }
            }
        } else if a >= re {
            assert(!in_ranges(f, a)) by {
                if in_ranges(f, a) {
                    let j = choose|j: int| 0 <= j < f.len() && (#[trigger] f[j]).0 <= a < f[j].1;
                    assert(f[j].1 <= sorted.last().0);
                }
            }
        } else {
            lemma_relevant(holes, rs, re, a);
        }
    }
}

proof fn lemma_hole_fold_cover(s: Seq<(usize, usize)>, a: int)
    requires
        s.len() >= 1,
        sorted_by_first(s),
    ensures
        in_ranges(hole_fold(s).0.push(hole_fold(s).1), a) <==> in_ranges(s, a),
        hole_fold(s).1.0 <= s.last().0,
        ranges_wf(s) ==> ranges_wf(hole_fold(s).0.push(hole_fold(s).1)),
    decreases s.len(),
{
    if s.len() == 1 {
        assert(Seq::<(usize, usize)>::empty().push(s[0]) =~= s);
    } else {
        let p = s.drop_last();
        assert(sorted_by_first(p));
        lemma_hole_fold_cover(p, a);
        let (m, c) = hole_fold(p);
        let h = s.last();
        assert(p.push(h) =~= s);
        lemma_in_ranges_push(p, h, a);
        lemma_in_ranges_push(m, c, a);
        assert(p.last() == s[s.len() - 2]);
        assert(c.0 <= h.0);
        if h.0 <= c.1 {
            let c2 = (c.0, max_u(c.1, h.1));
            lemma_in_ranges_push(m, c2, a);
            if ranges_wf(s) {
                assert(ranges_wf(p)) by {
                    assert forall|i: int| 0 <= i < p.len() implies (#[trigger] p[i]).0 <= p[i].1 by {
                        assert(p[i] == s[i]);
                    }
                }
                assert(m.push(c)[m.len() as int] == c);
                assert forall|i: int| 0 <= i < m.push(c2).len() implies (#[trigger] m.push(c2)[i]).0
                    <= m.push(c2)[i].1 by {
                    if i < m.len() {
                        assert(m.push(c2)[i] == m.push(c)[i]);
                    }
                }
            }
        } else {
            lemma_in_ranges_push(m.push(c), h, a);
            if ranges_wf(s) {
                assert(ranges_wf(p)) by {
                    assert forall|i: int| 0 <= i < p.len() implies (#[trigger] p[i]).0 <= p[i].1 by {
                        assert(p[i] == s[i]);
                    }
                }
                assert forall|i: int| 0 <= i < m.push(c).push(h).len() implies (#[trigger] m.push(c).push(h)[i]).0
                    <= m.push(c).push(h)[i].1 by {
                    if i < m.push(c).len() {
                        assert(m.push(c).push(h)[i] == m.push(c)[i]);
                    }
                }
            }
        }
    }
}

/// Law: the merged holes cover exactly the addresses that some non-RAM
/// region covers; they are well formed when the non-RAM regions are.
pub proof fn law_holes_of_cover(s: Seq<MemoryRegion>, a: int)
    ensures
        in_ranges(holes_of(s), a) <==> in_ranges(non_ram_ranges(s), a),
        ranges_wf(non_ram_ranges(s)) ==> ranges_wf(holes_of(s)),
{
    broadcast use vstd::seq_lib::group_to_multiset_ensures;
    let nr = non_ram_ranges(s);
    let t = sort_by_first(nr);
    lemma_sort_by_first(nr);
    lemma_sort_pairs_len(nr);
    lemma_in_ranges_same_multiset(t, nr, a);
    if ranges_wf(nr) {
        assert forall|i: int| 0 <= i < t.len() implies (#[trigger] t[i]).0 <= t[i].1 by {
            assert(t.to_multiset().count(t[i]) > 0);
            assert(nr.contains(t[i]));
            let k = choose|k: int| 0 <= k < nr.len() && nr[k] == t[i];
        }
    }
    if t.len() > 0 {
        lemma_hole_fold_cover(t, a);
    }
}

/// Law: what `subtract_non_ram_from_ram` keeps of a RAM range `[rs, re)` is
/// exactly its addresses that no non-RAM region covers, when the non-RAM
/// regions are well formed, no more than 32 merged holes reach into the
/// range and no more than 16 fragments result.
pub proof fn law_ram_avoids_non_ram(s: Seq<MemoryRegion>, rs: usize, re: usize, a: int)
    requires
        rs <= re,
        ranges_wf(non_ram_ranges(s)),
        relevant_all(holes_of(s), rs, re).len() <= 32,
        fragments_all(sort_by_first(relevant_all(holes_of(s), rs, re)), rs, re).len() <= 16,
    ensures
        in_ranges(subtract_holes(rs, re, holes_of(s)), a) <==> (rs <= a < re && !in_ranges(
            non_ram_ranges(s),
            a,
        )),
{
    law_holes_of_cover(s, a);
    law_subtract_holes(rs, re, holes_of(s), a);
}

/// Every range of `f` is non-empty, and each ends before the next starts.
pub open spec fn apart(f: Seq<(usize, usize)>) -> bool {
    &&& forall|i: int| 0 <= i < f.len() ==> (#[trigger] f[i]).0 < f[i].1
    &&& forall|i: int, j: int| 0 <= i < j < f.len() ==> (#[trigger] f[i]).1 < (#[trigger] f[j]).0
}

/// Every range of `h` is non-empty.
pub open spec fn all_nonempty(h: Seq<(usize, usize)>) -> bool {
    forall|i: int| 0 <= i < h.len() ==> (#[trigger] h[i]).0 < h[i].1
}

proof fn lemma_frag_fold_apart(h: Seq<(usize, usize)>, rs: usize)
    requires
        all_nonempty(h),
    ensures
        apart(frag_fold(h, rs).0),
        frag_fold(h, rs).1 >= rs,
        forall|i: int| 0 <= i < frag_fold(h, rs).0.len() ==> (#[trigger] frag_fold(h, rs).0[i]).1 < frag_fold(h, rs).1,
    decreases h.len(),
{
    if h.len() > 0 {
        let p = h.drop_last();
        assert(all_nonempty(p)) by {
            assert forall|i: int| 0 <= i < p.len() implies (#[trigger] p[i]).0 < p[i].1 by {
                assert(p[i] == h[i]);
            }
        }
        lemma_frag_fold_apart(p, rs);
        assert(h.last() == h[h.len() - 1]);
    }
}

proof fn lemma_relevant_nonempty(holes: Seq<(usize, usize)>, rs: usize, re: usize)
    requires
        all_nonempty(holes),
        rs < re,
    ensures
        all_nonempty(relevant_all(holes, rs, re)),
    decreases holes.len(),
{
    if holes.len() > 0 {
        let p = holes.drop_last();
        assert(all_nonempty(p)) by {
            assert forall|i: int| 0 <= i < p.len() implies (#[trigger] p[i]).0 < p[i].1 by {
                assert(p[i] == holes[i]);
            }
        }
        lemma_relevant_nonempty(p, rs, re);
        assert(holes.last() == holes[holes.len() - 1]);
    }
}

/// Law: the fragments that subtracting non-empty holes from a non-empty
/// range leaves are non-empty, come in order of address, and are apart:
/// each ends before the next one starts.
pub proof fn law_fragments_apart(rs: usize, re: usize, holes: Seq<(usize, usize)>)
    requires
        rs < re,
        all_nonempty(holes),
    ensures
        apart(subtract_holes(rs, re, holes)),
{
    let rel = cap(relevant_all(holes, rs, re), 32);
    lemma_relevant_nonempty(holes, rs, re);
    if rel.len() > 0 {
        assert(all_nonempty(rel)) by {
            assert forall|i: int| 0 <= i < rel.len() implies (#[trigger] rel[i]).0 < rel[i].1 by {
                assert(rel[i] == relevant_all(holes, rs, re)[i]);
            }
        }
        let sorted = sort_by_first(rel);
        lemma_sort_by_first(rel);
        assert(all_nonempty(sorted)) by {
            broadcast use vstd::seq_lib::group_to_multiset_ensures;
            assert forall|i: int| 0 <= i < sorted.len() implies (#[trigger] sorted[i]).0 < sorted[i].1 by {
                assert(sorted.contains(sorted[i]));
                assert(rel.to_multiset().count(sorted[i]) > 0);
                assert(rel.contains(sorted[i]));
            }
        }
        lemma_frag_fold_apart(sorted, rs);
        let all = fragments_all(sorted, rs, re);
        assert(apart(all));
        let f = cap(all, 16);
        assert(apart(f)) by {
            assert forall|i: int| 0 <= i < f.len() implies (#[trigger] f[i]).0 < f[i].1 by {
                assert(f[i] == all[i]);
            }
            assert forall|i: int, j: int| 0 <= i < j < f.len() implies (#[trigger] f[i]).1 < (#[trigger] f[j]).0 by {
                assert(f[i] == all[i] && f[j] == all[j]);
            }
        }
    }
}

} // verus!

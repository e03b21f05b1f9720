//! Sorting memory regions by their start address and merging overlapping or
//! adjacent regions of the same kind.

use vstd::prelude::*;

use super::{MemoryRegion, MemoryRegionKind};

verus! {

/// Inserts `x` into `sorted` after every region whose start is not above
/// `x.start` (a stable insertion).
pub open spec fn insert_by_start(sorted: Seq<MemoryRegion>, x: MemoryRegion) -> Seq<MemoryRegion>
    decreases sorted.len(),
{
    if sorted.len() == 0 {
        seq![x]
    } else if sorted.last().start <= x.start {
        sorted.push(x)
    } else {
        insert_by_start(sorted.drop_last(), x).push(sorted.last())
    }
}

/// The stable sort of `s` by start address.
pub open spec fn sort_by_start(s: Seq<MemoryRegion>) -> Seq<MemoryRegion>
    decreases s.len(),
{
    if s.len() == 0 {
        s
    } else {
        insert_by_start(sort_by_start(s.drop_last()), s.last())
    }
}

/// Ascending by start address.
pub open spec fn sorted_by_start(s: Seq<MemoryRegion>) -> bool {
    forall|i: int, j: int| 0 <= i <= j < s.len() ==> s[i].start <= s[j].start
}

pub open spec fn max_usize(a: usize, b: usize) -> usize {
    if a >= b { a } else { b }
}

/// Folds `next` into the non-empty merged list `acc`: `None` when `next`
/// overlaps the last region of `acc` and has another kind.
pub open spec fn merge_step(acc: Seq<MemoryRegion>, next: MemoryRegion) -> Option<Seq<MemoryRegion>> {
    let curr = acc.last();
    if next.start < curr.end {
        if next.kind != curr.kind {
            None
        } else {
            Some(acc.drop_last().push(MemoryRegion { end: max_usize(curr.end, next.end), ..curr }))
        }
    } else if next.start == curr.end && next.kind == curr.kind {
        Some(acc.drop_last().push(MemoryRegion { end: next.end, ..curr }))
    } else {
        Some(acc.push(next))
    }
}

/// Merges a list sorted by start address, left to right: `None` when two
/// regions of different kinds overlap.
pub open spec fn merge_sorted(s: Seq<MemoryRegion>) -> Option<Seq<MemoryRegion>>
    decreases s.len(),
{
    if s.len() <= 1 {
        Some(s)
    } else {
        match merge_sorted(s.drop_last()) {
            None => None,
            Some(acc) => merge_step(acc, s.last()),
        }
    }
}

/// Sorts `s` by start address and merges it.
pub open spec fn merged(s: Seq<MemoryRegion>) -> Option<Seq<MemoryRegion>> {
    merge_sorted(sort_by_start(s))
}

proof fn lemma_insert_at(s: Seq<MemoryRegion>, x: MemoryRegion, j: int)
    requires
        0 <= j <= s.len(),
        forall|k: int| j <= k < s.len() ==> s[k].start > x.start,
        j > 0 ==> s[j - 1].start <= x.start,
    ensures
        insert_by_start(s, x) == s.insert(j, x),
    decreases s.len(),
{
    if s.len() == 0 {
        assert(s.insert(j, x) =~= seq![x]);
    } else if s.last().start <= x.start {
        assert(j == s.len());
        assert(s.insert(j, x) =~= s.push(x));
    } else {
        lemma_insert_at(s.drop_last(), x, j);
        assert(s.drop_last().insert(j, x).push(s.last()) =~= s.insert(j, x));
    }
}

proof fn lemma_insert_sorted(s: Seq<MemoryRegion>, x: MemoryRegion)
    requires
        sorted_by_start(s),
    ensures
        sorted_by_start(insert_by_start(s, x)),
        insert_by_start(s, x).len() == s.len() + 1,
        insert_by_start(s, x).to_multiset() == s.to_multiset().insert(x),
    decreases s.len(),
{
    broadcast use vstd::seq_lib::group_to_multiset_ensures;
    if s.len() == 0 {
        assert(seq![x] =~= Seq::<MemoryRegion>::empty().push(x));
    } else if s.last().start <= x.start {
    } else {
        lemma_insert_sorted(s.drop_last(), x);
        let t = insert_by_start(s.drop_last(), x);
        assert(s.drop_last().push(s.last()) =~= s);
        assert forall|i: int, j: int| 0 <= i <= j < t.push(s.last()).len() implies
            t.push(s.last())[i].start <= t.push(s.last())[j].start by {
            if j == t.len() && i < t.len() {
                // every element of t is either x or an element of s.drop_last()
                assert(t.to_multiset().count(t[i]) > 0);
                assert(s.drop_last().to_multiset().insert(x).count(t[i]) > 0);
                if t[i] != x {
                    assert(s.drop_last().to_multiset().count(t[i]) > 0);
                    assert(s.drop_last().contains(t[i]));
                    let k = choose|k: int| 0 <= k < s.drop_last().len() && s.drop_last()[k] == t[i];
                    assert(s[k] == t[i]);
                }
            }
        }
    }
}

/// `sort_by_start` yields a sorted permutation.
pub proof fn lemma_sort_by_start(s: Seq<MemoryRegion>)
    ensures
        sorted_by_start(sort_by_start(s)),
        sort_by_start(s).len() == s.len(),
        sort_by_start(s).to_multiset() == s.to_multiset(),
    decreases s.len(),
{
    broadcast use vstd::seq_lib::group_to_multiset_ensures;
    if s.len() > 0 {
        lemma_sort_by_start(s.drop_last());
        lemma_insert_sorted(sort_by_start(s.drop_last()), s.last());
        assert(s.drop_last().push(s.last()) =~= s);
    }
}

/// Sorts `v` by start address, stably.
pub fn sort_regions(v: &Vec<MemoryRegion>) -> (r: Vec<MemoryRegion>)
    ensures
        r@ == sort_by_start(v@),
{
    let mut out: Vec<MemoryRegion> = Vec::new();
    let mut i: usize = 0;
    while i < v.len()
        invariant
            i <= v.len(),
            out@ == sort_by_start(v@.take(i as int)),
        decreases v.len() - i,
    {
        let x = v[i];
        proof {
            lemma_sort_by_start(v@.take(i as int));
        }
        let mut j: usize = out.len();
        while j > 0 && out[j - 1].start > x.start
            invariant
                j <= out.len(),
                forall|k: int| j <= k < out.len() ==> out@[k].start > x.start,
            decreases j,
        {
            j = j - 1;
        }
        proof {
            lemma_insert_at(out@, x, j as int);
            assert(v@.take(i as int + 1).drop_last() =~= v@.take(i as int));
        }
        out.insert(j, x);
        i = i + 1;
    }
    assert(v@.take(v.len() as int) =~= v@);
    out
}

} // verus!

verus! {

pub proof fn lemma_merge_sorted_len(s: Seq<MemoryRegion>)
    requires
        merge_sorted(s) is Some,
    ensures
        merge_sorted(s)->0.len() <= s.len(),
        s.len() > 0 ==> merge_sorted(s)->0.len() >= 1,
    decreases s.len(),
{
    if s.len() > 1 {
        lemma_merge_sorted_len(s.drop_last());
    }
}

/// A prefix of a list that merges without conflict merges without conflict.
pub proof fn lemma_merge_sorted_prefix(s: Seq<MemoryRegion>, i: int)
    requires
        merge_sorted(s) is Some,
        0 <= i <= s.len(),
    ensures
        merge_sorted(s.take(i)) is Some,
    decreases s.len(),
{
    if i < s.len() {
        assert(s.drop_last().take(i) =~= s.take(i));
        if s.len() > 1 {
            lemma_merge_sorted_prefix(s.drop_last(), i);
        }
    } else {
        assert(s.take(i) =~= s);
    }
}

/// Whether two regions of different kinds overlap once `v` is sorted by
/// start and merged left to right: the conflict that stops the merge.
pub fn regions_conflict(v: &[MemoryRegion]) -> (r: bool)
    ensures
        r == (merged(v@) is None),
{
    let mut items: Vec<MemoryRegion> = Vec::new();
    let mut k: usize = 0;
    while k < v.len()
        invariant
            k <= v.len(),
            items@ == v@.take(k as int),
        decreases v.len() - k,
    {
        items.push(v[k]);
        k = k + 1;
        assert(items@ =~= v@.take(k as int));
    }
    assert(v@.take(v@.len() as int) =~= v@);
    let sorted = sort_regions(&items);
    if sorted.len() == 0 {
        return false;
    }
    let ghost s = sorted@;
    let mut out: Vec<MemoryRegion> = Vec::new();
    out.push(sorted[0]);
    assert(s.take(1) =~= seq![s[0]]);
    let mut i: usize = 1;
    while i < sorted.len()
        invariant
            1 <= i <= sorted.len(),
            s == sorted@,
            s == sort_by_start(v@),
            merge_sorted(s.take(i as int)) == Some(out@),
            out.len() >= 1,
        decreases sorted.len() - i,
    {
        let next = sorted[i];
        let last = out.len() - 1;
        let curr = out[last];
        let ghost old_out = out@;
        proof {
            assert(s.take(i as int + 1).drop_last() =~= s.take(i as int));
            assert(s.take(i as int + 1).last() == next);
            assert(out@.last() == curr);
        }
        if next.start < curr.end {
            if next.kind != curr.kind {
                proof {
                    assert(merge_sorted(s.take(i as int + 1)) is None);
                    if merge_sorted(s) is Some {
                        lemma_merge_sorted_prefix(s, i as int + 1);
                    }
                }
                return true;
            }
            let end = if curr.end >= next.end { curr.end } else { next.end };
            out.set(last, MemoryRegion { kind: curr.kind, start: curr.start, end });
            assert(out@ =~= merge_step(old_out, next)->0);
        } else if next.start == curr.end && next.kind == curr.kind {
            out.set(last, MemoryRegion { kind: curr.kind, start: curr.start, end: next.end });
            assert(out@ =~= merge_step(old_out, next)->0);
        } else {
            out.push(next);
        }
        i = i + 1;
    }
    assert(s.take(s.len() as int) =~= s);
    false
}

/// Merges a list already sorted by start address.
pub fn merge_sorted_regions(v: &Vec<MemoryRegion>) -> (r: Vec<MemoryRegion>)
    requires
        merge_sorted(v@) is Some,
    ensures
        r@ == merge_sorted(v@)->0,
{
    let mut out: Vec<MemoryRegion> = Vec::new();
    if v.len() == 0 {
        assert(v@ =~= Seq::<MemoryRegion>::empty());
        return out;
    }
    out.push(v[0]);
    assert(v@.take(1) =~= seq![v@[0]]);
    let mut i: usize = 1;
    while i < v.len()
        invariant
            1 <= i <= v.len(),
            merge_sorted(v@) is Some,
            merge_sorted(v@.take(i as int)) == Some(out@),
            out.len() >= 1,
        decreases v.len() - i,
    {
        let next = v[i];
        let last = out.len() - 1;
        let curr = out[last];
        let ghost old_out = out@;
        proof {
            lemma_merge_sorted_prefix(v@, i as int + 1);
            assert(v@.take(i as int + 1).drop_last() =~= v@.take(i as int));
            assert(v@.take(i as int + 1).last() == next);
            assert(out@.last() == curr);
        }
        if next.start < curr.end {
            if next.kind != curr.kind {
                assert(false);
            } else {
                let end = if curr.end >= next.end { curr.end } else { next.end };
                out.set(last, MemoryRegion { kind: curr.kind, start: curr.start, end });
                assert(out@ =~= merge_step(old_out, next)->0);
            }
        } else if next.start == curr.end && next.kind == curr.kind {
            out.set(last, MemoryRegion { kind: curr.kind, start: curr.start, end: next.end });
            assert(out@ =~= merge_step(old_out, next)->0);
        } else {
            out.push(next);
        }
        i = i + 1;
    }
    assert(v@.take(v.len() as int) =~= v@);
    out
}

} // verus!

verus! {

/// Consecutive regions neither overlap nor adjoin with the same kind.
pub open spec fn normalized(s: Seq<MemoryRegion>) -> bool {
    forall|i: int|
        0 <= i < s.len() - 1 ==> #[trigger] s[i + 1].start > s[i].end || (s[i + 1].start == s[i].end
            && s[i + 1].kind != s[i].kind)
}

/// Every region has `start <= end`.
pub open spec fn all_wf(s: Seq<MemoryRegion>) -> bool {
    forall|i: int| 0 <= i < s.len() ==> (#[trigger] s[i]).wf()
}

/// Address `a` lies in some region of kind `k`.
pub open spec fn covered(s: Seq<MemoryRegion>, k: MemoryRegionKind, a: int) -> bool {
    exists|i: int| 0 <= i < s.len() && (#[trigger] s[i]).kind == k && s[i].covers(a)
}

proof fn lemma_merge_sorted_normalized(t: Seq<MemoryRegion>)
    requires
        merge_sorted(t) is Some,
    ensures
        normalized(merge_sorted(t)->0),
    decreases t.len(),
{
    if t.len() > 1 {
        lemma_merge_sorted_normalized(t.drop_last());
        lemma_merge_sorted_len(t.drop_last());
        let acc = merge_sorted(t.drop_last())->0;
        let out = merge_sorted(t)->0;
        assert forall|i: int| 0 <= i < out.len() - 1 implies #[trigger] out[i + 1].start > out[i].end
            || (out[i + 1].start == out[i].end && out[i + 1].kind != out[i].kind) by {
            if i < acc.len() - 2 {
                assert(out[i] == acc[i] && out[i + 1] == acc[i + 1]);
            } else if i == acc.len() - 2 {
                assert(out[i] == acc[i]);
                assert(out[i + 1].start == acc[i + 1].start);
            }
        }
    }
}

proof fn lemma_merge_sorted_wf(t: Seq<MemoryRegion>)
    requires
        merge_sorted(t) is Some,
        all_wf(t),
    ensures
        all_wf(merge_sorted(t)->0),
    decreases t.len(),
{
    if t.len() > 1 {
        assert(all_wf(t.drop_last())) by {
            assert forall|i: int| 0 <= i < t.drop_last().len() implies (#[trigger] t.drop_last()[i]).wf() by {
                assert(t[i].wf());
            }
        }
        lemma_merge_sorted_wf(t.drop_last());
        lemma_merge_sorted_len(t.drop_last());
        assert(t[t.len() - 1].wf());
        let acc = merge_sorted(t.drop_last())->0;
        assert(acc[acc.len() - 1].wf());
    }
}

proof fn lemma_normalized_chain(s: Seq<MemoryRegion>, i: int, j: int)
    requires
        normalized(s),
        all_wf(s),
        0 <= i <= j < s.len(),
    ensures
        s[i].start <= s[j].start,
    decreases j - i,
{
    if i < j {
        lemma_normalized_chain(s, i, j - 1);
        assert(s[j - 1].wf());
        assert(s[(j - 1) + 1].start > s[j - 1].end || s[(j - 1) + 1].start == s[j - 1].end);
    }
}

proof fn lemma_normalized_wf_sorted(s: Seq<MemoryRegion>)
    requires
        normalized(s),
        all_wf(s),
    ensures
        sorted_by_start(s),
{
    assert forall|i: int, j: int| 0 <= i <= j < s.len() implies s[i].start <= s[j].start by {
        lemma_normalized_chain(s, i, j);
    }
}

proof fn lemma_sort_sorted_identity(s: Seq<MemoryRegion>)
    requires
        sorted_by_start(s),
    ensures
        sort_by_start(s) == s,
    decreases s.len(),
{
    if s.len() > 0 {
        lemma_sort_sorted_identity(s.drop_last());
        assert(s.drop_last().push(s.last()) =~= s);
    }
}

proof fn lemma_merge_normalized_identity(s: Seq<MemoryRegion>)
    requires
        normalized(s),
    ensures
        merge_sorted(s) == Some(s),
    decreases s.len(),
{
    if s.len() > 1 {
        assert(normalized(s.drop_last())) by {
            assert forall|i: int| 0 <= i < s.drop_last().len() - 1 implies #[trigger] s.drop_last()[i + 1].start
                > s.drop_last()[i].end || (s.drop_last()[i + 1].start == s.drop_last()[i].end
                && s.drop_last()[i + 1].kind != s.drop_last()[i].kind) by {
                assert(s[i + 1].start > s[i].end || (s[i + 1].start == s[i].end && s[i + 1].kind != s[i].kind));
            }
        }
        lemma_merge_normalized_identity(s.drop_last());
        let k = s.len() - 2;
        assert(s[k + 1].start > s[k].end || (s[k + 1].start == s[k].end && s[k + 1].kind != s[k].kind));
        assert(s.drop_last().push(s.last()) =~= s);
    }
}

/// Law: the merged list is in normal form; no region overlaps or adjoins
/// the next one with the same kind.
pub proof fn law_merge_normal_form(s: Seq<MemoryRegion>)
    requires
        merged(s) is Some,
    ensures
        normalized(merged(s)->0),
        merged(s)->0.len() <= s.len(),
{
    lemma_merge_sorted_normalized(sort_by_start(s));
    lemma_sort_by_start(s);
    lemma_merge_sorted_len(sort_by_start(s));
}

/// Law: merging is idempotent; a merged list of well-formed regions is sorted
/// and merges to itself.
pub proof fn law_merge_idempotent(s: Seq<MemoryRegion>)
    requires
        merged(s) is Some,
        all_wf(s),
    ensures
        all_wf(merged(s)->0),
        sorted_by_start(merged(s)->0),
        merged(merged(s)->0) == Some(merged(s)->0),
{
    broadcast use vstd::seq_lib::group_to_multiset_ensures;
    let t = sort_by_start(s);
    lemma_sort_by_start(s);
    assert(all_wf(t)) by {
        assert forall|i: int| 0 <= i < t.len() implies (#[trigger] t[i]).wf() by {
            assert(t.to_multiset().count(t[i]) > 0);
            assert(s.to_multiset().count(t[i]) > 0);
            assert(s.contains(t[i]));
            let k = choose|k: int| 0 <= k < s.len() && s[k] == t[i];
            assert(s[k].wf());
        }
    }
    lemma_merge_sorted_wf(t);
    lemma_merge_sorted_normalized(t);
    let out = merge_sorted(t)->0;
    lemma_normalized_wf_sorted(out);
    lemma_sort_sorted_identity(out);
    lemma_merge_normalized_identity(out);
}

} // verus!

verus! {

proof fn lemma_covered_push(s: Seq<MemoryRegion>, x: MemoryRegion, k: MemoryRegionKind, a: int)
    ensures
        covered(s.push(x), k, a) <==> (covered(s, k, a) || (x.kind == k && x.covers(a))),
{
    if covered(s, k, a) {
        let i = choose|i: int| 0 <= i < s.len() && (#[trigger] s[i]).kind == k && s[i].covers(a);
        assert(s.push(x)[i] == s[i]);
    }
    if x.kind == k && x.covers(a) {
        assert(s.push(x)[s.len() as int] == x);
    }
    if covered(s.push(x), k, a) {
        let i = choose|i: int| 0 <= i < s.push(x).len() && (#[trigger] s.push(x)[i]).kind == k && s.push(x)[i].covers(a);
        if i < s.len() {
            assert(s[i] == s.push(x)[i]);
        }
    }
}

proof fn lemma_merge_sorted_coverage(t: Seq<MemoryRegion>, k: MemoryRegionKind, a: int)
    requires
        merge_sorted(t) is Some,
        sorted_by_start(t),
        all_wf(t),
    ensures
        covered(merge_sorted(t)->0, k, a) <==> covered(t, k, a),
        t.len() > 0 ==> merge_sorted(t)->0.last().start <= t.last().start,
        all_wf(merge_sorted(t)->0),
    decreases t.len(),
{
    lemma_merge_sorted_wf(t);
    if t.len() > 1 {
        let p = t.drop_last();
        assert(all_wf(p)) by {
            assert forall|i: int| 0 <= i < p.len() implies (#[trigger] p[i]).wf() by {
                assert(t[i].wf());
            }
        }
        lemma_merge_sorted_coverage(p, k, a);
        lemma_merge_sorted_len(p);
        let acc = merge_sorted(p)->0;
        let next = t.last();
        let curr = acc.last();
        assert(curr.start <= next.start) by {
            assert(p.last().start <= next.start);
        }
        assert(next.wf());
        assert(curr.wf()) by {
            assert(acc[acc.len() - 1].wf());
        }
        assert(p.push(next) =~= t);
        lemma_covered_push(p, next, k, a);
        lemma_covered_push(acc.drop_last(), curr, k, a);
        assert(acc.drop_last().push(curr) =~= acc);
        if next.start < curr.end {
            let nw = MemoryRegion { end: max_usize(curr.end, next.end), ..curr };
            lemma_covered_push(acc.drop_last(), nw, k, a);
        } else if next.start == curr.end && next.kind == curr.kind {
            let nw = MemoryRegion { end: next.end, ..curr };
            lemma_covered_push(acc.drop_last(), nw, k, a);
        } else {
            lemma_covered_push(acc, next, k, a);
        }
    } else if t.len() == 1 {
    }
}

/// Law: for well-formed regions, merging keeps exactly the addresses that
/// each kind covers.
pub proof fn law_merge_preserves_coverage(s: Seq<MemoryRegion>, k: MemoryRegionKind, a: int)
    requires
        merged(s) is Some,
        all_wf(s),
    ensures
        covered(merged(s)->0, k, a) <==> covered(s, k, a),
{
    broadcast use vstd::seq_lib::group_to_multiset_ensures;
    let t = sort_by_start(s);
    lemma_sort_by_start(s);
    assert(all_wf(t)) by {
        assert forall|i: int| 0 <= i < t.len() implies (#[trigger] t[i]).wf() by {
            assert(t.to_multiset().count(t[i]) > 0);
            assert(s.to_multiset().count(t[i]) > 0);
            assert(s.contains(t[i]));
        }
    }
    lemma_merge_sorted_coverage(t, k, a);
    if covered(t, k, a) {
        let i = choose|i: int| 0 <= i < t.len() && (#[trigger] t[i]).kind == k && t[i].covers(a);
        assert(t.to_multiset().count(t[i]) > 0);
        assert(s.to_multiset().count(t[i]) > 0);
        assert(s.contains(t[i]));
        let j = choose|j: int| 0 <= j < s.len() && s[j] == t[i];
        assert(s[j].kind == k && s[j].covers(a));
    }
    if covered(s, k, a) {
        let i = choose|i: int| 0 <= i < s.len() && (#[trigger] s[i]).kind == k && s[i].covers(a);
        assert(s.to_multiset().count(s[i]) > 0);
        assert(t.to_multiset().count(s[i]) > 0);
        assert(t.contains(s[i]));
        let j = choose|j: int| 0 <= j < t.len() && t[j] == s[i];
        assert(t[j].kind == k && t[j].covers(a));
    }
}

} // verus!

verus! {

proof fn lemma_merge_sorted_starts(t: Seq<MemoryRegion>)
    requires
        merge_sorted(t) is Some,
    ensures
        forall|k: int| 0 <= k < merge_sorted(t)->0.len() ==> exists|j: int| 0 <= j < t.len()
            && (#[trigger] merge_sorted(t)->0[k]).start == t[j].start,
    decreases t.len(),
{
    if t.len() > 1 {
        lemma_merge_sorted_starts(t.drop_last());
        lemma_merge_sorted_len(t.drop_last());
        let acc = merge_sorted(t.drop_last())->0;
        let out = merge_sorted(t)->0;
        assert forall|k: int| 0 <= k < out.len() implies exists|j: int| 0 <= j < t.len()
            && (#[trigger] out[k]).start == t[j].start by {
            if k < acc.len() {
                assert(out[k].start == acc[k].start);
                let j = choose|j: int| 0 <= j < t.drop_last().len() && acc[k].start == t.drop_last()[j].start;
                assert(t[j] == t.drop_last()[j]);
            } else {
                assert(out[k] == t.last());
                assert(t[t.len() - 1] == t.last());
            }
        }
    } else {
        assert forall|k: int| 0 <= k < merge_sorted(t)->0.len() implies exists|j: int| 0 <= j < t.len()
            && (#[trigger] merge_sorted(t)->0[k]).start == t[j].start by {
            assert(merge_sorted(t)->0[k] == t[k]);
        }
    }
}

/// Every merged region starts where some input region starts.
pub proof fn lemma_merge_starts(s: Seq<MemoryRegion>)
    requires
        merged(s) is Some,
    ensures
        forall|k: int| 0 <= k < merged(s)->0.len() ==> exists|j: int| 0 <= j < s.len()
            && (#[trigger] merged(s)->0[k]).start == s[j].start,
{
    broadcast use vstd::seq_lib::group_to_multiset_ensures;
    let t = sort_by_start(s);
    lemma_sort_by_start(s);
    lemma_merge_sorted_starts(t);
    assert forall|k: int| 0 <= k < merged(s)->0.len() implies exists|j: int| 0 <= j < s.len()
        && (#[trigger] merged(s)->0[k]).start == s[j].start by {
        let j = choose|j: int| 0 <= j < t.len() && merged(s)->0[k].start == t[j].start;
        assert(t.to_multiset().count(t[j]) > 0);
        assert(s.contains(t[j]));
        let i = choose|i: int| 0 <= i < s.len() && s[i] == t[j];
    }
}

} // verus!

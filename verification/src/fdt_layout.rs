//! The layout of a flattened device-tree blob that the parser walks
//! safely for the queries of this crate: offsets inside the blob, a
//! structure block that ends properly, and, for the nodes whose `reg` is
//! read (`memory` and `cpu` nodes and the children of `reserved-memory`),
//! a parent whose cell counts and `ranges` the parser's arithmetic can take.

use vstd::prelude::*;

use crate::fdt::{be32, FDT_MAGIC};

verus! {

/// The structure-block tokens.
pub const TOKEN_BEGIN_NODE: u64 = 1;
pub const TOKEN_END_NODE: u64 = 2;
pub const TOKEN_PROP: u64 = 3;
pub const TOKEN_NOP: u64 = 4;
pub const TOKEN_END: u64 = 9;

/// The bytes of the property name `#address-cells`.
pub open spec fn address_cells_name() -> Seq<u8> {
    seq![35u8, 97u8, 100u8, 100u8, 114u8, 101u8, 115u8, 115u8, 45u8, 99u8, 101u8, 108u8, 108u8, 115u8]
}

/// The bytes of the property name `#size-cells`.
pub open spec fn size_cells_name() -> Seq<u8> {
    seq![35u8, 115u8, 105u8, 122u8, 101u8, 45u8, 99u8, 101u8, 108u8, 108u8, 115u8]
}

/// The bytes of the property name `ranges`.
pub open spec fn ranges_name() -> Seq<u8> {
    seq![114u8, 97u8, 110u8, 103u8, 101u8, 115u8]
}

/// The bytes of the node name `memory`.
pub open spec fn memory_name() -> Seq<u8> {
    seq![109u8, 101u8, 109u8, 111u8, 114u8, 121u8]
}

/// The bytes of the node name `cpu`.
pub open spec fn cpu_name() -> Seq<u8> {
    seq![99u8, 112u8, 117u8]
}

/// The bytes of the node name `reserved-memory`.
pub open spec fn reserved_memory_name() -> Seq<u8> {
    seq![114u8, 101u8, 115u8, 101u8, 114u8, 118u8, 101u8, 100u8, 45u8, 109u8, 101u8, 109u8, 111u8, 114u8, 121u8]
}

/// The string at `o` in `b` is `n`, ended by a zero byte.
pub open spec fn name_is(b: Seq<u8>, o: int, n: Seq<u8>) -> bool {
    &&& 0 <= o
    &&& o + n.len() < b.len()
    &&& b.subrange(o, o + n.len()) == n
    &&& b[o + n.len()] == 0
}

/// The node name in `b[o..q]` is `n` before its `@`, if it has one.
pub open spec fn base_is(b: Seq<u8>, o: int, q: int, n: Seq<u8>) -> bool {
    &&& 0 <= o
    &&& o + n.len() <= q <= b.len()
    &&& b.subrange(o, o + n.len()) == n
    &&& (o + n.len() == q || b[o + n.len()] == 64)
}

/// The position of the first zero byte of `b` at or after `i`; -1 when
/// there is none.
pub open spec fn first_nul(b: Seq<u8>, i: int) -> int
    decreases b.len() - i,
{
    if i < 0 || i >= b.len() {
        -1
    } else if b[i] == 0 {
        i
    } else {
        first_nul(b, i + 1)
    }
}

/// `x` rounded up to a multiple of four.
pub open spec fn pad4(x: int) -> int {
    x + (4 - x % 4) % 4
}

/// What the parser keeps of a node once its properties are read: its
/// `#address-cells` and `#size-cells` (given or inherited), whether it is
/// named `reserved-memory`, and whether the address translation through
/// its `ranges` is safe.
#[derive(Debug, Clone, Copy, PartialEq, Eq, Structural)]
pub struct Frame {
    pub ac: u8,
    pub sc: u8,
    pub rsv: bool,
    pub ranges_ok: bool,
}

/// A node whose properties are being read: its cell counts so far, whether
/// it is named `reserved-memory`, and where the data of its last `ranges`
/// property lies, if it has one.
#[derive(Debug, Clone, Copy, PartialEq, Eq, Structural)]
pub struct OpenNode {
    pub ac: u8,
    pub sc: u8,
    pub rsv: bool,
    pub has_ranges: bool,
    pub rstart: usize,
    pub rend: usize,
}

/// The value of the `n` cells at `k`, as the parser reads an address: the
/// first word, or the first two as one 64-bit value.
pub open spec fn cells_value(b: Seq<u8>, k: int, n: u8) -> int {
    if n == 1 { be32(b, k) } else { be32(b, k) * 0x1_0000_0000 + be32(b, k + 4) }
}

/// The `ranges` entry at `k` can be used without overflow: its child
/// address plus its size, and its parent address plus its size less one,
/// fit in 64 bits.
pub open spec fn entry_ok(b: Seq<u8>, k: int, ac: u8, pac: u8, sc: u8) -> bool {
    let rc = cells_value(b, k, ac);
    let rp = cells_value(b, k + 4 * ac, pac);
    let size = cells_value(b, k + 4 * (ac + pac), sc);
    rc + size <= u64::MAX && (size == 0 || rp + size - 1 <= u64::MAX)
}

/// The entries of a `ranges` property from `k` to `end` can be walked and
/// used as the parser does: with `ac` child and `pac` parent address cells
/// and `sc` size cells, every entry that is there in full has cell counts
/// the parser can read and values that do not overflow.
pub open spec fn ranges_ok(b: Seq<u8>, k: int, end: int, ac: u8, pac: u8, sc: u8) -> bool
    decreases end - k,
{
    let need = 4 * (ac + pac);
    if k + need > end {
        true
    } else if ac == 0 || pac == 0 || !(sc == 1 || sc == 2) {
        false
    } else if k + need + 4 * sc > end {
        true
    } else {
        entry_ok(b, k, ac, pac, sc) && ranges_ok(b, k + need + 4 * sc, end, ac, pac, sc)
    }
}

/// The address cells of the innermost node on `stack`; 2 outside any node.
pub open spec fn parent_ac(stack: Seq<Frame>) -> u8 {
    if stack.len() == 0 { 2 } else { stack.last().ac }
}

/// The size cells of the innermost node on `stack`; 1 outside any node.
pub open spec fn parent_sc(stack: Seq<Frame>) -> u8 {
    if stack.len() == 0 { 1 } else { stack.last().sc }
}

/// The stack once the properties of `open`, if any, are all read.
pub open spec fn close(b: Seq<u8>, stack: Seq<Frame>, open: Option<OpenNode>) -> Seq<Frame> {
    match open {
        None => stack,
        Some(o) => stack.push(Frame {
            ac: o.ac,
            sc: o.sc,
            rsv: o.rsv,
            ranges_ok: !o.has_ranges || ranges_ok(b, o.rstart as int, o.rend as int, o.ac, parent_ac(stack), o.sc),
        }),
    }
}

/// The parser reads the `reg` of the node named in `b[o..q]` whose parent
/// is `parent`: a `memory` or `cpu` node, or a child of `reserved-memory`.
pub open spec fn reads_reg(b: Seq<u8>, o: int, q: int, parent: Frame) -> bool {
    base_is(b, o, q, memory_name()) || base_is(b, o, q, cpu_name()) || parent.rsv
}

/// The `reg` of a child of `parent` can be read: one or two address cells,
/// at most two size cells, and a safe `ranges`.
pub open spec fn reg_ok(parent: Frame) -> bool {
    (parent.ac == 1 || parent.ac == 2) && parent.sc <= 2 && parent.ranges_ok
}

/// The node opened at the header whose name is `b[o..q]`, inside `stack`.
pub open spec fn new_node(b: Seq<u8>, o: int, q: int, stack: Seq<Frame>) -> OpenNode {
    OpenNode {
        ac: parent_ac(stack),
        sc: parent_sc(stack),
        rsv: base_is(b, o, q, reserved_memory_name()),
        has_ranges: false,
        rstart: 0,
        rend: 0,
    }
}

/// The property at `p` (token, length, name offset, then its data) and its
/// name lie in `b`.
pub open spec fn prop_ok(b: Seq<u8>, strs: int, p: int) -> bool {
    &&& p + 12 <= b.len()
    &&& p + 12 + pad4(be32(b, p + 4)) <= b.len()
    &&& strs + be32(b, p + 8) <= b.len()
}

/// Where the token after the node header at `p` starts: after the node's
/// name and its zero byte, rounded up to a multiple of four from `s`; -1
/// when the name has no end or the next token would start past the blob.
pub open spec fn begin_next(b: Seq<u8>, s: int, p: int) -> int {
    let q = first_nul(b, p + 4);
    if q < 0 {
        -1
    } else {
        let np = s + pad4(q + 1 - s);
        if np > b.len() || np <= p { -1 } else { np }
    }
}

/// Where the token after the property at `p` starts.
pub open spec fn prop_next(b: Seq<u8>, p: int) -> int {
    p + 12 + pad4(be32(b, p + 4))
}

/// The open node after the property at `p`: `#address-cells` and
/// `#size-cells` with data set the cell counts (to the last byte of their
/// first word), and `ranges` is remembered with its padded data.
pub open spec fn prop_update(b: Seq<u8>, strs: int, p: int, open: Option<OpenNode>) -> Option<OpenNode> {
    match open {
        None => None,
        Some(o) => {
            let len = be32(b, p + 4);
            let name = strs + be32(b, p + 8);
            let is_r = name_is(b, name, ranges_name());
            Some(OpenNode {
                ac: if name_is(b, name, address_cells_name()) && len > 0 { b[p + 15] } else { o.ac },
                sc: if name_is(b, name, size_cells_name()) && len > 0 { b[p + 15] } else { o.sc },
                rsv: o.rsv,
                has_ranges: o.has_ranges || is_r,
                rstart: if is_r { (p + 12) as usize } else { o.rstart },
                rend: if is_r { (p + 12 + pad4(len)) as usize } else { o.rend },
            })
        },
    }
}

/// The structure block from the token at `p` on walks to its end token:
/// `s` is where the block starts, `strs` where the strings start, `stack`
/// the nodes whose properties are read and that are not closed yet, and
/// `open` the node whose properties are being read. Every node whose `reg`
/// the parser reads has a parent that `reg_ok` accepts.
pub open spec fn walk_ok(b: Seq<u8>, s: int, strs: int, p: int, stack: Seq<Frame>, open: Option<OpenNode>) -> bool
    decreases b.len() - p,
{
    if p < s || p + 4 > b.len() {
        false
    } else {
        let t = be32(b, p);
        if t == TOKEN_END {
            true
        } else if t == TOKEN_NOP {
            walk_ok(b, s, strs, p + 4, stack, open)
        } else if t == TOKEN_END_NODE {
            let st2 = close(b, stack, open);
            st2.len() >= 1 && walk_ok(b, s, strs, p + 4, st2.drop_last(), None)
        } else if t == TOKEN_BEGIN_NODE {
            let np = begin_next(b, s, p);
            if np < 0 {
                false
            } else {
                let st2 = close(b, stack, open);
                let q = first_nul(b, p + 4);
                (st2.len() == 0 || !reads_reg(b, p + 4, q, st2.last()) || reg_ok(st2.last()))
                    && walk_ok(b, s, strs, np, st2, Some(new_node(b, p + 4, q, st2)))
            }
        } else if t == TOKEN_PROP {
            if !prop_ok(b, strs, p) || prop_next(b, p) <= p {
                false
            } else {
                walk_ok(b, s, strs, prop_next(b, p), stack, prop_update(b, strs, p, open))
            }
        } else {
            false
        }
    }
}

/// The blob `b` has the layout that the parser walks without panicking or
/// looping for the queries of this crate: a full header with the magic
/// number, the memory reservation block and the structure block starting
/// inside the blob, and a structure block that `walk_ok` accepts.
pub open spec fn fdt_layout_ok(b: Seq<u8>) -> bool {
    &&& b.len() >= 40
    &&& be32(b, 0) == FDT_MAGIC
    &&& be32(b, 16) <= b.len()
    &&& be32(b, 8) <= b.len()
    &&& walk_ok(b, be32(b, 8), be32(b, 12), be32(b, 8), Seq::empty(), None)
}

/// Law: a node with no properties and no children changes nothing in the
/// verdict on the blob, at any depth: when the node header at `p` names a
/// node that is neither a `memory` nor a `cpu` node nor a child of
/// `reserved-memory`, and its end token follows its header at once, the
/// structure block walks from `p` exactly as it walks from after that end
/// token, with the properties read so far closed.
pub proof fn law_empty_node_any_depth(
    b: Seq<u8>,
    s: int,
    strs: int,
    p: int,
    stack: Seq<Frame>,
    open: Option<OpenNode>,
)
    requires
        s <= p,
        p + 4 <= b.len(),
        be32(b, p) == TOKEN_BEGIN_NODE,
        begin_next(b, s, p) >= 0,
        begin_next(b, s, p) + 4 <= b.len(),
        be32(b, begin_next(b, s, p)) == TOKEN_END_NODE,
        !base_is(b, p + 4, first_nul(b, p + 4), memory_name()),
        !base_is(b, p + 4, first_nul(b, p + 4), cpu_name()),
        close(b, stack, open).len() == 0 || !close(b, stack, open).last().rsv,
    ensures
        walk_ok(b, s, strs, p, stack, open) == walk_ok(b, s, strs, begin_next(b, s, p) + 4, close(b, stack, open), None),
{
    let np = begin_next(b, s, p);
    let st2 = close(b, stack, open);
    let q = first_nul(b, p + 4);
    let o = new_node(b, p + 4, q, st2);
    assert(close(b, st2, Some(o)).drop_last() =~= st2);
    assert(walk_ok(b, s, strs, np, st2, Some(o)) == walk_ok(b, s, strs, np + 4, st2, None));
}

/// Law: a property that lies in the blob and is none of `#address-cells`,
/// `#size-cells` and `ranges` changes nothing in the verdict on the blob,
/// wherever it stands: the walk from it is the walk from the token after
/// it.
pub proof fn law_plain_property_passes(
    b: Seq<u8>,
    s: int,
    strs: int,
    p: int,
    stack: Seq<Frame>,
    open: Option<OpenNode>,
)
    requires
        s <= p,
        be32(b, p) == TOKEN_PROP,
        prop_ok(b, strs, p),
        !name_is(b, strs + be32(b, p + 8), address_cells_name()),
        !name_is(b, strs + be32(b, p + 8), size_cells_name()),
        !name_is(b, strs + be32(b, p + 8), ranges_name()),
    ensures
        walk_ok(b, s, strs, p, stack, open) == walk_ok(b, s, strs, prop_next(b, p), stack, open),
{
    lemma_pad4(be32(b, p + 4));
    match open {
        None => {},
        Some(o) => {
            assert(prop_update(b, strs, p, open) == open);
        },
    }
}

/// The open node's `ranges` lies inside the blob.
pub open spec fn open_wf(b: Seq<u8>, open: Option<OpenNode>) -> bool {
    open matches Some(o) ==> o.rstart <= o.rend <= b.len()
}

/// The big-endian word at `b[p..p + 4]`.
fn read_be32(b: &[u8], p: usize) -> (r: u64)
    requires
        p + 4 <= b@.len(),
    ensures
        r == be32(b@, p as int),
        r < 0x1_0000_0000,
{
    (b[p] as u64) * 0x100_0000 + (b[p + 1] as u64) * 0x1_0000 + (b[p + 2] as u64) * 0x100 + b[p + 3] as u64
}

/// Whether the string at `o` in `b` is `n`, ended by a zero byte.
fn has_name(b: &[u8], o: usize, n: &[u8]) -> (r: bool)
    ensures
        r == name_is(b@, o as int, n@),
{
    if o >= b.len() || n.len() >= b.len() - o {
        return false;
    }
    let mut i: usize = 0;
    while i < n.len()
        invariant
            i <= n.len(),
            o < b.len(),
            n.len() < b.len() - o,
            forall|j: int| 0 <= j < i ==> b@[o + j] == n@[j],
        decreases n.len() - i,
    {
        if b[o + i] != n[i] {
            assert(b@.subrange(o as int, o + n@.len())[i as int] != n@[i as int]);
            return false;
        }
        i = i + 1;
    }
    assert(b@.subrange(o as int, o + n@.len()) =~= n@);
    b[o + n.len()] == 0
}

/// The position of the first zero byte of `b` at or after `i`, if any.
fn find_nul(b: &[u8], i: usize) -> (r: Option<usize>)
    ensures
        match r {
            Some(q) => q == first_nul(b@, i as int) && i <= q < b.len(),
            None => first_nul(b@, i as int) == -1,
        },
{
    let mut k = i;
    while k < b.len()
        invariant
            i <= k,
            first_nul(b@, i as int) == first_nul(b@, k as int),
        decreases b.len() - k,
    {
        if b[k] == 0 {
            return Some(k);
        }
        k = k + 1;
    }
    None
}

proof fn lemma_pad4(x: int)
    requires
        x >= 0,
    ensures
        x <= pad4(x) < x + 4,
        pad4(x) % 4 == 0,
        x > 0 ==> pad4(x) >= 4,
{
}

/// Whether the node name in `b[o..q]` is `n` before its `@`.
fn has_base(b: &[u8], o: usize, q: usize, n: &[u8]) -> (r: bool)
    requires
        o <= q <= b.len(),
    ensures
        r == base_is(b@, o as int, q as int, n@),
{
    if n.len() > q - o {
        return false;
    }
    let mut i: usize = 0;
    while i < n.len()
        invariant
            i <= n.len(),
            o + n@.len() <= q <= b.len(),
            forall|j: int| 0 <= j < i ==> b@[o + j] == n@[j],
        decreases n.len() - i,
    {
        if b[o + i] != n[i] {
            assert(b@.subrange(o as int, o + n@.len())[i as int] != n@[i as int]);
            return false;
        }
        i = i + 1;
    }
    assert(b@.subrange(o as int, o + n@.len()) =~= n@);
    o + n.len() == q || b[o + n.len()] == 64
}

/// The value of the `n` cells at `k`, as the parser reads an address.
fn read_cells(b: &[u8], k: usize, n: u8) -> (r: u64)
    requires
        n >= 1,
        k + 4 * n <= b.len(),
    ensures
        r == cells_value(b@, k as int, n),
{
    if n == 1 {
        read_be32(b, k)
    } else {
        read_be32(b, k) * 0x1_0000_0000 + read_be32(b, k + 4)
    }
}

/// Whether the entries of a `ranges` property from `k0` to `end` can be
/// walked and used as the parser does.
fn ranges_fine(b: &[u8], k0: usize, end: usize, ac: u8, pac: u8, sc: u8) -> (r: bool)
    requires
        k0 <= end <= b.len(),
    ensures
        r == ranges_ok(b@, k0 as int, end as int, ac, pac, sc),
{
    let need: usize = 4 * (ac as usize + pac as usize);
    let mut k = k0;
    while k <= end
        invariant
            k0 <= k <= end <= b.len(),
            need == 4 * (ac + pac),
            ranges_ok(b@, k0 as int, end as int, ac, pac, sc) == ranges_ok(b@, k as int, end as int, ac, pac, sc),
        decreases end - k,
    {
        if end - k < need {
            return true;
        }
        if ac == 0 || pac == 0 || !(sc == 1 || sc == 2) {
            return false;
        }
        let step = need + 4 * sc as usize;
        if end - k < step {
            return true;
        }
        let rc = read_cells(b, k, ac);
        let rp = read_cells(b, k + 4 * ac as usize, pac);
        let size = read_cells(b, k + need, sc);
        if size > u64::MAX - rc || (size != 0 && size - 1 > u64::MAX - rp) {
            return false;
        }
        k = k + step;
    }
    true
}

/// The stack once the properties of `open`, if any, are all read.
fn close_node(b: &[u8], stack: &mut Vec<Frame>, open: Option<OpenNode>)
    requires
        open_wf(b@, open),
    ensures
        final(stack)@ == close(b@, old(stack)@, open),
{
    match open {
        None => {},
        Some(o) => {
            let pac = if stack.len() == 0 { 2 } else { stack[stack.len() - 1].ac };
            let ok = !o.has_ranges || ranges_fine(b, o.rstart, o.rend, o.ac, pac, o.sc);
            stack.push(Frame { ac: o.ac, sc: o.sc, rsv: o.rsv, ranges_ok: ok });
        },
    }
}

/// The step over a node header at `p`: where the next token starts and
/// where the node's name ends.
fn begin_step(b: &[u8], s: usize, p: usize) -> (r: Option<(usize, usize)>)
    requires
        s <= p,
        p + 4 <= b.len(),
    ensures
        match r {
            Some((np, q)) => np as int == begin_next(b@, s as int, p as int) && np > p && q as int == first_nul(
                b@,
                p + 4,
            ) && p + 4 <= q < b.len(),
            None => begin_next(b@, s as int, p as int) < 0,
        },
{
    let q = match find_nul(b, p + 4) {
        Some(q) => q,
        None => return None,
    };
    let rel = q + 1 - s;
    let pad = (4 - rel % 4) % 4;
    if pad > b.len() - (q + 1) {
        return None;
    }
    Some((q + 1 + pad, q))
}

/// The step over the property at `p`: `None` when `prop_ok` does not hold,
/// else where the next token starts and the open node after it.
fn prop_step(b: &[u8], strs: u64, p: usize, open: Option<OpenNode>) -> (r: Option<(usize, Option<OpenNode>)>)
    requires
        p + 4 <= b.len(),
        strs < 0x1_0000_0000,
        open_wf(b@, open),
    ensures
        match r {
            Some((np, o2)) => {
                &&& prop_ok(b@, strs as int, p as int)
                &&& np as int == prop_next(b@, p as int)
                &&& p < np <= b@.len()
                &&& o2 == prop_update(b@, strs as int, p as int, open)
                &&& open_wf(b@, o2)
            },
            None => !prop_ok(b@, strs as int, p as int),
        },
{
    if b.len() - p < 12 {
        return None;
    }
    let len = read_be32(b, p + 4);
    let off = read_be32(b, p + 8);
    let plen: u64 = len + (4 - len % 4) % 4;
    proof {
        lemma_pad4(len as int);
    }
    if plen > (b.len() - p - 12) as u64 {
        return None;
    }
    if strs > b.len() as u64 || off > b.len() as u64 - strs {
        return None;
    }
    let dend = p + 12 + plen as usize;
    let o = match open {
        None => return Some((dend, None)),
        Some(o) => o,
    };
    let name = (strs + off) as usize;
    let addr_name: [u8; 14] = [35, 97, 100, 100, 114, 101, 115, 115, 45, 99, 101, 108, 108, 115];
    let size_name: [u8; 11] = [35, 115, 105, 122, 101, 45, 99, 101, 108, 108, 115];
    let ranges_nm: [u8; 6] = [114, 97, 110, 103, 101, 115];
    assert(addr_name@ =~= address_cells_name());
    assert(size_name@ =~= size_cells_name());
    assert(ranges_nm@ =~= ranges_name());
    let is_addr = has_name(b, name, &addr_name);
    let is_size = has_name(b, name, &size_name);
    let is_ranges = has_name(b, name, &ranges_nm);
    let ac = if is_addr && len > 0 { b[p + 15] } else { o.ac };
    let sc = if is_size && len > 0 { b[p + 15] } else { o.sc };
    let o2 = OpenNode {
        ac,
        sc,
        rsv: o.rsv,
        has_ranges: o.has_ranges || is_ranges,
        rstart: if is_ranges { p + 12 } else { o.rstart },
        rend: if is_ranges { dend } else { o.rend },
    };
    Some((dend, Some(o2)))
}

/// Whether the blob `b` has the layout that the device-tree parser walks
/// without panicking or looping for the queries of this crate.
pub fn check_fdt_layout(b: &[u8]) -> (r: bool)
    ensures
        r == fdt_layout_ok(b@),
{
    if b.len() < 40 {
        return false;
    }
    if read_be32(b, 0) != FDT_MAGIC as u64 {
        return false;
    }
    let st = read_be32(b, 8);
    let strs = read_be32(b, 12);
    let rsv = read_be32(b, 16);
    if rsv > b.len() as u64 || st > b.len() as u64 {
        return false;
    }
    let memory_nm: [u8; 6] = [109, 101, 109, 111, 114, 121];
    let cpu_nm: [u8; 3] = [99, 112, 117];
    let rsv_nm: [u8; 15] = [114, 101, 115, 101, 114, 118, 101, 100, 45, 109, 101, 109, 111, 114, 121];
    assert(memory_nm@ =~= memory_name());
    assert(cpu_nm@ =~= cpu_name());
    assert(rsv_nm@ =~= reserved_memory_name());
    let s = st as usize;
    let mut p = s;
    let mut stack: Vec<Frame> = Vec::new();
    let mut open: Option<OpenNode> = None;
    loop
        invariant
            s <= p <= b@.len(),
            s == be32(b@, 8),
            strs == be32(b@, 12),
            strs < 0x1_0000_0000,
            open_wf(b@, open),
            memory_nm@ == memory_name(),
            cpu_nm@ == cpu_name(),
            rsv_nm@ == reserved_memory_name(),
            fdt_layout_ok(b@) == walk_ok(b@, s as int, strs as int, p as int, stack@, open),
        decreases b@.len() - p,
    {
        if b.len() - p < 4 {
            return false;
        }
        let t = read_be32(b, p);
        if t == TOKEN_END {
            return true;
        } else if t == TOKEN_NOP {
            p = p + 4;
        } else if t == TOKEN_END_NODE {
            close_node(b, &mut stack, open);
            if stack.len() == 0 {
                return false;
            }
            stack.pop();
            open = None;
            p = p + 4;
        } else if t == TOKEN_BEGIN_NODE {
            let (np, q) = match begin_step(b, s, p) {
                None => return false,
                Some(x) => x,
            };
            close_node(b, &mut stack, open);
            let o = p + 4;
            if stack.len() > 0 {
                let parent = stack[stack.len() - 1];
                let reads = has_base(b, o, q, &memory_nm) || has_base(b, o, q, &cpu_nm) || parent.rsv;
                let fine = (parent.ac == 1 || parent.ac == 2) && parent.sc <= 2 && parent.ranges_ok;
                if reads && !fine {
                    return false;
                }
            }
            let (ac, sc) = if stack.len() == 0 { (2u8, 1u8) } else {
                (stack[stack.len() - 1].ac, stack[stack.len() - 1].sc)
            };
            let rsv = has_base(b, o, q, &rsv_nm);
            open = Some(OpenNode { ac, sc, rsv, has_ranges: false, rstart: 0, rend: 0 });
            p = np;
        } else if t == TOKEN_PROP {
            match prop_step(b, strs, p, open) {
                None => return false,
                Some((np, o2)) => {
                    p = np;
                    open = o2;
                },
            }
        } else {
            return false;
        }
    }
}

} // verus!

//! LoongArch64 boot helpers: the physical address of a direct-mapped
//! address, the relocation of the kernel image, and the power stubs.

use vstd::prelude::*;

verus! {

/// The address the kernel image is linked at.
pub const VMLINUX_LOAD_ADDRESS: u64 = 0x9000_0000_0020_0000;

/// Width of a physical address.
pub const PABITS: usize = 48;

/// Strips the direct-mapping window bits of a LoongArch virtual address,
/// keeping the low 48 bits of the physical address.
pub fn to_phys(addr: usize) -> (r: usize)
    ensures
        r as int == addr as int % 0x1_0000_0000_0000int,
{
    let a = addr as u64;
    let m = a & 0xffff_ffff_ffffu64;
    assert(a & 0xffff_ffff_ffffu64 == a % 0x1_0000_0000_0000u64) by (bit_vector);
    assert(m <= a);
    m as usize
}

/// A relative relocation: add the load offset to the addend.
pub const R_LARCH_RELATIVE: u32 = 3;

/// An entry of `.rela.dyn`.
#[derive(Debug, Clone, Copy, PartialEq, Eq, Structural)]
pub struct Rela {
    /// The link-time address to patch.
    pub r_offset: u64,
    /// The relocation type (low 32 bits) and symbol index.
    pub r_info: u64,
    /// The value to store, before relocation.
    pub r_addend: i64,
}

impl Rela {
    /// The relocation type: the low 32 bits of `r_info`.
    pub fn r_type_raw(&self) -> (r: u32)
        ensures
            r == self.r_info % 0x1_0000_0000,
    {
        let info = self.r_info;
        let t = info & 0xFFFF_FFFFu64;
        assert(info & 0xFFFF_FFFFu64 == info % 0x1_0000_0000u64) by (bit_vector);
        t as u32
    }
}

/// How far the image was loaded from where it was linked: the physical
/// address of `_text` minus the link address, both taken as 64-bit signed.
pub fn get_load_offset(text_lma: usize) -> (r: i64)
    requires
        i64::MIN <= (text_lma as i64) - (VMLINUX_LOAD_ADDRESS as i64) <= i64::MAX,
    ensures
        r == (text_lma as i64) - (VMLINUX_LOAD_ADDRESS as i64),
{
    (text_lma as i64) - (VMLINUX_LOAD_ADDRESS as i64)
}

/// The relocation writes that relative entry `r` asks for: none in range.
pub open spec fn rela_ok(r: Rela, load_offset: i64) -> bool {
    r.r_info % 0x1_0000_0000 == R_LARCH_RELATIVE ==> {
        &&& i64::MIN <= (r.r_offset as i64) + load_offset <= i64::MAX
        &&& i64::MIN <= r.r_addend + load_offset <= i64::MAX
    }
}

/// The relocated entries, in order, as `(address, value)` writes.
pub open spec fn relocation_writes(relocs: Seq<Rela>, load_offset: i64) -> Seq<(usize, usize)>
    decreases relocs.len(),
{
    if relocs.len() == 0 {
        Seq::empty()
    } else {
        let r = relocs.last();
        let prev = relocation_writes(relocs.drop_last(), load_offset);
        if r.r_info % 0x1_0000_0000 == R_LARCH_RELATIVE {
            prev.push((((r.r_offset as i64) + load_offset) as usize, (r.r_addend + load_offset) as usize))
        } else {
            prev
        }
    }
}

/// Applies `.rela.dyn`: for every relative entry, the word at its offset
/// plus the load offset gets its addend plus the load offset. Returns the
/// writes to make, in order.
pub fn apply(relocations: &[Rela], load_offset: i64) -> (r: Vec<(usize, usize)>)
    requires
        forall|i: int| 0 <= i < relocations@.len() ==> rela_ok(#[trigger] relocations@[i], load_offset),
    ensures
        r@ == relocation_writes(relocations@, load_offset),
{
    let mut writes: Vec<(usize, usize)> = Vec::new();
    let mut i: usize = 0;
    while i < relocations.len()
        invariant
            i <= relocations.len(),
            forall|k: int| 0 <= k < relocations@.len() ==> rela_ok(#[trigger] relocations@[k], load_offset),
            writes@ == relocation_writes(relocations@.take(i as int), load_offset),
        decreases relocations.len() - i,
    {
        let reloc = relocations[i];
        proof {
            assert(relocations@.take(i as int + 1).drop_last() =~= relocations@.take(i as int));
            assert(rela_ok(relocations@[i as int], load_offset));
        }
        if reloc.r_type_raw() == R_LARCH_RELATIVE {
            let addr = ((reloc.r_offset as i64) + load_offset) as usize;
            let value = (reloc.r_addend + load_offset) as usize;
            writes.push((addr, value));
        }
        i = i + 1;
    }
    assert(relocations@.take(relocations@.len() as int) =~= relocations@);
    writes
}

/// The UTF-16 code units of the characters of `s` that lie in the Basic
/// Multilingual Plane, in order; the others are left out.
pub open spec fn bmp_units(s: Seq<char>) -> Seq<u16>
    decreases s.len(),
{
    if s.len() == 0 {
        Seq::empty()
    } else {
        let r = bmp_units(s.drop_last());
        if (s.last() as u32) <= 0xffff {
            r.push((s.last() as u32) as u16)
        } else {
            r
        }
    }
}

/// Law: the units that `str_to_utf16` writes are the characters of `s` in
/// the Basic Multilingual Plane, all of them and in order, each as the
/// unit equal to its code point.
pub proof fn law_bmp_units_keep_plane_zero(s: Seq<char>)
    ensures
        bmp_units(s) == s.filter(|c: char| (c as u32) <= 0xffff).map_values(|c: char| (c as u32) as u16),
    decreases s.len(),
{
    reveal(Seq::filter);
    if s.len() > 0 {
        law_bmp_units_keep_plane_zero(s.drop_last());
        let f = s.drop_last().filter(|c: char| (c as u32) <= 0xffff);
        if (s.last() as u32) <= 0xffff {
            assert(s.filter(|c: char| (c as u32) <= 0xffff) == f.push(s.last()));
            assert(f.push(s.last()).map_values(|c: char| (c as u32) as u16) =~= f.map_values(
                |c: char| (c as u32) as u16,
            ).push((s.last() as u32) as u16));
        } else {
            assert(s.filter(|c: char| (c as u32) <= 0xffff) == f);
        }
    } else {
        assert(s.filter(|c: char| (c as u32) <= 0xffff) =~= Seq::<char>::empty());
        assert(bmp_units(s) =~= Seq::<char>::empty().map_values(|c: char| (c as u32) as u16));
    }
}

/// Writes the UTF-16 form of `s` into `buffer`, keeping the characters of
/// the Basic Multilingual Plane and as many of them as leave room for a
/// terminating 0, then the 0. Returns the length of the written prefix,
/// terminator included.
pub fn str_to_utf16(s: &str, buffer: &mut [u16]) -> (n: usize)
    requires
        old(buffer)@.len() >= 1,
    ensures
        final(buffer)@.len() == old(buffer)@.len(),
        n - 1 == (if bmp_units(s@).len() < old(buffer)@.len() - 1 {
            bmp_units(s@).len() as int
        } else {
            old(buffer)@.len() - 1
        }),
        final(buffer)@.take(n - 1) == bmp_units(s@).take(n - 1),
        final(buffer)@[n - 1] == 0,
        forall|j: int| n <= j < old(buffer)@.len() ==> final(buffer)@[j] == old(buffer)@[j],
{
    proof {
        broadcast use vstd::string::axiom_spec_iter;
    }
    let cap = buffer.len() - 1;
    let ghost b0 = buffer@;
    let mut i: usize = 0;
    for ch in it: s.chars()
        invariant
            it.seq() == s@,
            buffer@.len() == b0.len(),
            cap == b0.len() - 1,
            i <= cap,
            i == (if bmp_units(s@.take(it.index())).len() < cap {
                bmp_units(s@.take(it.index())).len() as int
            } else {
                cap as int
            }),
            buffer@.take(i as int) == bmp_units(s@.take(it.index())).take(i as int),
            forall|j: int| i <= j < b0.len() ==> buffer@[j] == b0[j],
    {
        let ghost k = it.index();
        proof {
            assert(s@.take(k + 1).drop_last() =~= s@.take(k));
            assert(s@.take(k + 1).last() == ch);
        }
        let code = ch as u32;
        if i < cap && code <= 0xffff {
            let unit = code as u16;
            assert(bmp_units(s@.take(k + 1)) == bmp_units(s@.take(k)).push(unit));
            assert(bmp_units(s@.take(k)).len() == i);
            assert(bmp_units(s@.take(k)).take(i as int) =~= bmp_units(s@.take(k)));
            let ghost before = buffer@;
            buffer[i] = unit;
            assert(buffer@.take(i + 1) =~= before.take(i as int).push(unit));
            i = i + 1;
            assert(buffer@.take(i as int) =~= bmp_units(s@.take(k + 1)).take(i as int));
        } else {
            assert(buffer@.take(i as int) =~= bmp_units(s@.take(k + 1)).take(i as int));
        }
    }
    proof {
        assert(s@.take(s@.len() as int) =~= s@);
    }
    buffer[i] = 0;
    assert(buffer@.take(i as int) =~= bmp_units(s@).take(i as int));
    i + 1
}

/// Power-management setup from the device tree: nothing to do on LoongArch.
pub fn init_by_fdt(fdt: Option<usize>) {
}

/// Starting a secondary CPU: accepted without action on LoongArch.
pub fn cpu_on(cpu_id: usize, entry: usize) -> (r: Result<(), &'static str>)
    ensures
        r is Ok,
{
    Ok(())
}

} // verus!

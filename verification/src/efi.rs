//! Text output for the UEFI console: decoding UTF-8 and preparing the
//! UTF-16 strings that the firmware prints.

use vstd::prelude::*;
use vstd::string::StringSliceAdditionalSpecFns;

verus! {

/// The signature that the header of a UEFI system table carries: the
/// bytes `IBI SYST` read as a little-endian word.
pub open spec fn system_table_signature_spec() -> u64 {
    0x5453_5953_2049_4249
}

/// `uefi_raw::table::system::SystemTable::SIGNATURE`, which the crate
/// defines as `0x5453_5953_2049_4249`.
#[verifier::external_body]
fn system_table_signature() -> (r: u64)
    ensures
        r == system_table_signature_spec(),
{
    uefi_raw::table::system::SystemTable::SIGNATURE
}

/// Why the entry point refuses what the firmware handed it.
#[derive(Debug, Clone, Copy, PartialEq, Eq, Structural)]
pub enum EntryError {
    /// No system table, or one whose header has the wrong signature.
    InvalidParameter,
}

/// Checks the system table that the firmware hands to the entry point:
/// `None` stands for a null pointer, else the signature of the table's
/// header. Only a table with the system-table signature is accepted.
pub fn check_system_table(signature: Option<u64>) -> (r: Result<(), EntryError>)
    ensures
        r is Ok <==> signature == Some(system_table_signature_spec()),
        r is Err ==> r == Err::<(), EntryError>(EntryError::InvalidParameter),
{
    match signature {
        None => Err(EntryError::InvalidParameter),
        Some(sig) => if sig == system_table_signature() {
            Ok(())
        } else {
            Err(EntryError::InvalidParameter)
        },
    }
}

/// The code point that a UTF-8 sequence of `len` bytes starting with `s`
/// encodes, assuming its continuation bytes are well-formed.
pub open spec fn decode(s: Seq<u8>, len: int) -> u32 {
    if len == 2 {
        (((s[0] & 0x1f) as u32) << 6) | ((s[1] & 0x3f) as u32)
    } else if len == 3 {
        (((s[0] & 0x0f) as u32) << 12) | (((s[1] & 0x3f) as u32) << 6) | ((s[2] & 0x3f) as u32)
    } else {
        (((s[0] & 0x07) as u32) << 18) | (((s[1] & 0x3f) as u32) << 12) | (((s[2] & 0x3f) as u32) << 6)
            | ((s[3] & 0x3f) as u32)
    }
}

/// The length that a lead byte announces: 2, 3 or 4 for the lead bytes of
/// multi-byte sequences, otherwise 1.
pub open spec fn lead_len(c0: u8) -> int {
    if c0 & 0xe0 == 0xc0 {
        2
    } else if c0 & 0xf0 == 0xe0 {
        3
    } else if c0 & 0xf8 == 0xf0 {
        4
    } else {
        1
    }
}

/// `s` starts with a well-formed multi-byte UTF-8 sequence of length `n`:
/// enough continuation bytes (`10xxxxxx`), a code point that needs exactly
/// `n` bytes, within the Unicode range, and not a surrogate
/// (`0xd800..0xe000`).
pub open spec fn well_formed(s: Seq<u8>, n: int) -> bool {
    &&& 2 <= n <= 4
    &&& s.len() >= n
    &&& forall|i: int| 1 <= i < n ==> #[trigger] s[i] & 0xc0 == 0x80
    &&& (n == 2 ==> 0x80 <= decode(s, n))
    &&& (n == 3 ==> 0x800 <= decode(s, n) && decode(s, n) & 0xf800 != 0xd800)
    &&& (n == 4 ==> 0x10000 <= decode(s, n) <= 0x10ffff)
}

/// Decodes the first character of `s8` and moves `s8` past it. An empty
/// input gives 0 and stays empty; a byte that does not start a well-formed
/// sequence is returned as it is, and only it is taken.
pub fn utf8_to_utf32(s8: &mut &[u8]) -> (r: u32)
    ensures
        r == utf8_decoded(old(s8)@).0,
        final(s8)@ == old(s8)@.subrange(utf8_decoded(old(s8)@).1, old(s8)@.len() as int),
{
    let (c, n) = utf8_first(*s8);
    let rest = vstd::slice::slice_subrange(*s8, n, s8.len());
    *s8 = rest;
    c
}

/// The first character of `s8` and the number of bytes it takes, as
/// `utf8_to_utf32` decodes it.
fn utf8_first(s8: &[u8]) -> (r: (u32, usize))
    ensures
        s8@.len() == 0 ==> r == (0u32, 0usize),
        s8@.len() > 0 && well_formed(s8@, lead_len(s8@[0])) ==> r == (decode(s8@, lead_len(s8@[0])), lead_len(s8@[0]) as usize),
        s8@.len() > 0 && !well_formed(s8@, lead_len(s8@[0])) ==> r == (s8@[0] as u32, 1usize),
        (r.0, r.1 as int) == utf8_decoded(s8@),
{
    if s8.len() == 0 {
        return (0, 0);
    }
    let c0 = s8[0];
    let n: usize = if c0 & 0xe0 == 0xc0 {
        2
    } else if c0 & 0xf0 == 0xe0 {
        3
    } else if c0 & 0xf8 == 0xf0 {
        4
    } else {
        1
    };
    if n == 1 || s8.len() < n {
        return (c0 as u32, 1);
    }
    let mut i: usize = 1;
    while i < n
        invariant
            2 <= n <= 4,
            n <= s8@.len(),
            s8@.len() > 0,
            c0 == s8@[0],
            n as int == lead_len(c0),
            1 <= i <= n,
            forall|j: int| 1 <= j < i ==> #[trigger] s8@[j] & 0xc0 == 0x80,
        decreases n - i,
    {
        if s8[i] & 0xc0 != 0x80 {
            assert(!well_formed(s8@, lead_len(s8@[0])));
            return (c0 as u32, 1);
        }
        i = i + 1;
    }
    let c32: u32 = if n == 2 {
        (((c0 & 0x1f) as u32) << 6) | ((s8[1] & 0x3f) as u32)
    } else if n == 3 {
        (((c0 & 0x0f) as u32) << 12) | (((s8[1] & 0x3f) as u32) << 6) | ((s8[2] & 0x3f) as u32)
    } else {
        (((c0 & 0x07) as u32) << 18) | (((s8[1] & 0x3f) as u32) << 12) | (((s8[2] & 0x3f) as u32) << 6)
            | ((s8[3] & 0x3f) as u32)
    };
    let ok = if n == 2 {
        0x80 <= c32
    } else if n == 3 {
        0x800 <= c32 && c32 & 0xf800 != 0xd800
    } else {
        0x10000 <= c32 && c32 <= 0x10ffff
    };
    if ok {
        (c32, n)
    } else {
        (c0 as u32, 1)
    }
}

/// What `utf8_to_utf32` returns for `s`: nothing for empty input, the
/// code point and length of a well-formed sequence, otherwise the first
/// byte as it is, taking one byte.
pub open spec fn utf8_decoded(s: Seq<u8>) -> (u32, int) {
    if s.len() == 0 {
        (0, 0)
    } else if well_formed(s, lead_len(s[0])) {
        (decode(s, lead_len(s[0])), lead_len(s[0]))
    } else {
        (s[0] as u32, 1)
    }
}

/// A UTF-8 continuation byte, `80..=BF`.
pub open spec fn utf8_cont(b: u8) -> bool {
    0x80 <= b <= 0xbf
}

/// `s` starts with a well-formed UTF-8 sequence of `n` bytes, by the
/// Unicode standard's table of well-formed byte sequences: exactly the
/// prefixes that `core::str::from_utf8` accepts as one character.
pub open spec fn utf8_valid_prefix(s: Seq<u8>, n: int) -> bool {
    &&& 1 <= n <= 4
    &&& n <= s.len()
    &&& if n == 1 {
        s[0] <= 0x7f
    } else if n == 2 {
        0xc2 <= s[0] <= 0xdf && utf8_cont(s[1])
    } else if n == 3 {
        &&& (s[0] == 0xe0 && 0xa0 <= s[1] <= 0xbf) || (0xe1 <= s[0] <= 0xec && utf8_cont(s[1])) || (s[0] == 0xed
            && 0x80 <= s[1] <= 0x9f) || (0xee <= s[0] <= 0xef && utf8_cont(s[1]))
        &&& utf8_cont(s[2])
    } else {
        &&& (s[0] == 0xf0 && 0x90 <= s[1] <= 0xbf) || (0xf1 <= s[0] <= 0xf3 && utf8_cont(s[1])) || (s[0] == 0xf4
            && 0x80 <= s[1] <= 0x8f)
        &&& utf8_cont(s[2])
        &&& utf8_cont(s[3])
    }
}

/// The scalar value that a well-formed sequence of `n` bytes at the start
/// of `s` encodes.
pub open spec fn utf8_scalar(s: Seq<u8>, n: int) -> u32 {
    if n == 1 { s[0] as u32 } else { decode(s, n) }
}

/// Law: on every non-empty input, `utf8_to_utf32` returns the character
/// that a well-formed UTF-8 prefix of one to four bytes encodes, with that
/// prefix's length; when no prefix is well formed, it returns the first
/// byte, taking one byte.
pub proof fn law_utf8_decoded_exact(s: Seq<u8>)
    requires
        s.len() > 0,
    ensures
        forall|n: int| #[trigger] utf8_valid_prefix(s, n) ==> utf8_decoded(s) == (utf8_scalar(s, n), n),
        (forall|n: int| !#[trigger] utf8_valid_prefix(s, n)) ==> utf8_decoded(s) == (s[0] as u32, 1int),
{
    let b0 = s[0];
    assert({
        &&& (b0 <= 0x7f ==> b0 & 0xe0 != 0xc0 && b0 & 0xf0 != 0xe0 && b0 & 0xf8 != 0xf0)
        &&& (b0 & 0xe0 == 0xc0 <==> 0xc0 <= b0 <= 0xdf)
        &&& (b0 & 0xf0 == 0xe0 <==> 0xe0 <= b0 <= 0xef)
        &&& (b0 & 0xf8 == 0xf0 <==> 0xf0 <= b0 <= 0xf7)
    }) by (bit_vector);
    let n0 = lead_len(b0);
    assert forall|n: int| #[trigger] utf8_valid_prefix(s, n) implies n == n0 || (n == 1 && n0 == 1) by {}
    if n0 >= 2 && s.len() >= n0 {
        let b1 = s[1];
        if n0 == 2 {
            assert(b0 & 0xe0 == 0xc0 ==> ((b1 & 0xc0 == 0x80 && ((((b0 & 0x1f) as u32) << 6) | ((b1 & 0x3f) as u32))
                >= 0x80) <==> (0xc2 <= b0 <= 0xdf && 0x80 <= b1 <= 0xbf))) by (bit_vector);
            assert(well_formed(s, 2) <==> utf8_valid_prefix(s, 2)) by {
                if utf8_valid_prefix(s, 2) {
                    assert forall|i: int| 1 <= i < 2 implies #[trigger] s[i] & 0xc0 == 0x80 by {
                        assert(i == 1);
                        assert(0x80 <= b1 <= 0xbf ==> b1 & 0xc0 == 0x80) by (bit_vector);
                    }
                }
                if well_formed(s, 2) {
                    assert(s[1] & 0xc0 == 0x80);
                }
            }
        } else if n0 == 3 {
            let b2 = s[2];
            assert(b0 & 0xf0 == 0xe0 ==> ((b1 & 0xc0 == 0x80 && b2 & 0xc0 == 0x80 && 0x800 <= ((((b0 & 0x0f) as u32)
                << 12) | (((b1 & 0x3f) as u32) << 6) | ((b2 & 0x3f) as u32)) && ((((b0 & 0x0f) as u32) << 12) | (((b1
                & 0x3f) as u32) << 6) | ((b2 & 0x3f) as u32)) & 0xf800 != 0xd800) <==> (((b0 == 0xe0 && 0xa0 <= b1
                && b1 <= 0xbf) || (0xe1 <= b0 && b0 <= 0xec && 0x80 <= b1 && b1 <= 0xbf) || (b0 == 0xed && 0x80
                <= b1 && b1 <= 0x9f) || (0xee <= b0 && b0 <= 0xef && 0x80 <= b1 && b1 <= 0xbf)) && 0x80 <= b2 && b2
                <= 0xbf))) by (bit_vector);
            assert(well_formed(s, 3) <==> utf8_valid_prefix(s, 3)) by {
                if utf8_valid_prefix(s, 3) {
                    assert(b1 & 0xc0 == 0x80 && b2 & 0xc0 == 0x80);
                    assert forall|i: int| 1 <= i < 3 implies #[trigger] s[i] & 0xc0 == 0x80 by {}
                }
                if well_formed(s, 3) {
                    assert(s[1] & 0xc0 == 0x80 && s[2] & 0xc0 == 0x80);
                }
            }
        } else {
            let b2 = s[2];
            let b3 = s[3];
            assert(b0 & 0xf8 == 0xf0 ==> ((b1 & 0xc0 == 0x80 && b2 & 0xc0 == 0x80 && b3 & 0xc0 == 0x80 && 0x10000
                <= ((((b0 & 0x07) as u32) << 18) | (((b1 & 0x3f) as u32) << 12) | (((b2 & 0x3f) as u32) << 6) | ((b3
                & 0x3f) as u32)) && ((((b0 & 0x07) as u32) << 18) | (((b1 & 0x3f) as u32) << 12) | (((b2 & 0x3f) as u32)
                << 6) | ((b3 & 0x3f) as u32)) <= 0x10ffff) <==> (((b0 == 0xf0 && 0x90 <= b1 && b1 <= 0xbf) || (0xf1
                <= b0 && b0 <= 0xf3 && 0x80 <= b1 && b1 <= 0xbf) || (b0 == 0xf4 && 0x80 <= b1 && b1 <= 0x8f)) && 0x80
                <= b2 && b2 <= 0xbf && 0x80 <= b3 && b3 <= 0xbf))) by (bit_vector);
            assert(well_formed(s, 4) <==> utf8_valid_prefix(s, 4)) by {
                if utf8_valid_prefix(s, 4) {
                    assert((0x80 <= b1 <= 0xbf ==> b1 & 0xc0 == 0x80) && (0x80 <= b2 <= 0xbf ==> b2 & 0xc0 == 0x80)
                        && (0x80 <= b3 <= 0xbf ==> b3 & 0xc0 == 0x80)) by (bit_vector);
                    assert forall|i: int| 1 <= i < 4 implies #[trigger] s[i] & 0xc0 == 0x80 by {}
                }
                if well_formed(s, 4) {
                    assert(s[1] & 0xc0 == 0x80 && s[2] & 0xc0 == 0x80 && s[3] & 0xc0 == 0x80);
                }
            }
        }
    }
}

/// The UTF-8 encoding of the code point `cp`, for `cp <= 0x10ffff`.
pub open spec fn utf8_encode(cp: u32) -> Seq<u8> {
    if cp < 0x80 {
        seq![cp as u8]
    } else if cp < 0x800 {
        seq![(0xc0 | (cp >> 6)) as u8, (0x80 | (cp & 0x3f)) as u8]
    } else if cp < 0x10000 {
        seq![(0xe0 | (cp >> 12)) as u8, (0x80 | ((cp >> 6) & 0x3f)) as u8, (0x80 | (cp & 0x3f)) as u8]
    } else {
        seq![
            (0xf0 | (cp >> 18)) as u8,
            (0x80 | ((cp >> 12) & 0x3f)) as u8,
            (0x80 | ((cp >> 6) & 0x3f)) as u8,
            (0x80 | (cp & 0x3f)) as u8,
        ]
    }
}

/// Law: decoding the UTF-8 encoding of a Unicode scalar value, whatever
/// follows it, gives the value back and takes the encoding's length.
pub proof fn law_utf8_roundtrip(cp: u32, rest: Seq<u8>)
    requires
        cp <= 0x10ffff,
        !(0xd800 <= cp < 0xe000),
    ensures
        utf8_decoded(utf8_encode(cp) + rest) == (cp, utf8_encode(cp).len() as int),
{
    let e = utf8_encode(cp);
    let s = e + rest;
    if cp < 0x80 {
        let b0 = cp as u8;
        assert(b0 & 0xe0 != 0xc0 && b0 & 0xf0 != 0xe0 && b0 & 0xf8 != 0xf0 && b0 as u32 == cp) by (bit_vector)
            requires cp < 0x80u32, b0 == cp as u8;
        assert(s[0] == b0);
        assert(lead_len(s[0]) == 1);
    } else if cp < 0x800 {
        let b0 = (0xc0 | (cp >> 6)) as u8;
        let b1 = (0x80 | (cp & 0x3f)) as u8;
        assert({
            &&& b0 & 0xe0 == 0xc0
            &&& b1 & 0xc0 == 0x80
            &&& (((b0 & 0x1f) as u32) << 6) | ((b1 & 0x3f) as u32) == cp
        }) by (bit_vector)
            requires 0x80u32 <= cp < 0x800u32, b0 == (0xc0 | (cp >> 6)) as u8, b1 == (0x80 | (cp & 0x3f)) as u8;
        assert(s[0] == b0 && s[1] == b1);
        assert(lead_len(s[0]) == 2);
        assert(well_formed(s, 2));
    } else if cp < 0x10000 {
        let b0 = (0xe0 | (cp >> 12)) as u8;
        let b1 = (0x80 | ((cp >> 6) & 0x3f)) as u8;
        let b2 = (0x80 | (cp & 0x3f)) as u8;
        assert({
            &&& b0 & 0xe0 != 0xc0
            &&& b0 & 0xf0 == 0xe0
            &&& b1 & 0xc0 == 0x80
            &&& b2 & 0xc0 == 0x80
            &&& (((b0 & 0x0f) as u32) << 12) | (((b1 & 0x3f) as u32) << 6) | ((b2 & 0x3f) as u32) == cp
            &&& cp & 0xf800 != 0xd800
        }) by (bit_vector)
            requires
                0x800u32 <= cp < 0x10000u32,
                !(0xd800u32 <= cp < 0xe000u32),
                b0 == (0xe0 | (cp >> 12)) as u8,
                b1 == (0x80 | ((cp >> 6) & 0x3f)) as u8,
                b2 == (0x80 | (cp & 0x3f)) as u8;
        assert(s[0] == b0 && s[1] == b1 && s[2] == b2);
        assert(lead_len(s[0]) == 3);
        assert(well_formed(s, 3));
    } else {
        let b0 = (0xf0 | (cp >> 18)) as u8;
        let b1 = (0x80 | ((cp >> 12) & 0x3f)) as u8;
        let b2 = (0x80 | ((cp >> 6) & 0x3f)) as u8;
        let b3 = (0x80 | (cp & 0x3f)) as u8;
        assert({
            &&& b0 & 0xe0 != 0xc0
            &&& b0 & 0xf0 != 0xe0
            &&& b0 & 0xf8 == 0xf0
            &&& b1 & 0xc0 == 0x80
            &&& b2 & 0xc0 == 0x80
            &&& b3 & 0xc0 == 0x80
            &&& (((b0 & 0x07) as u32) << 18) | (((b1 & 0x3f) as u32) << 12) | (((b2 & 0x3f) as u32) << 6)
                | ((b3 & 0x3f) as u32) == cp
        }) by (bit_vector)
            requires
                0x10000u32 <= cp <= 0x10ffffu32,
                b0 == (0xf0 | (cp >> 18)) as u8,
                b1 == (0x80 | ((cp >> 12) & 0x3f)) as u8,
                b2 == (0x80 | ((cp >> 6) & 0x3f)) as u8,
                b3 == (0x80 | (cp & 0x3f)) as u8;
        assert(s[0] == b0 && s[1] == b1 && s[2] == b2 && s[3] == b3);
        assert(lead_len(s[0]) == 4);
        assert(well_formed(s, 4));
    }
}


/// The code points that repeated decoding reads from `s`, in order: each
/// step takes what `utf8_to_utf32` takes from the rest.
pub open spec fn chars_of(s: Seq<u8>) -> Seq<u32>
    decreases s.len(),
{
    if s.len() == 0 {
        Seq::empty()
    } else {
        let n = utf8_decoded(s).1;
        if 1 <= n <= s.len() {
            seq![utf8_decoded(s).0] + chars_of(s.subrange(n, s.len() as int))
        } else {
            Seq::empty()
        }
    }
}

/// The UTF-8 encodings of the code points `cps`, one after the other.
pub open spec fn utf8_encode_all(cps: Seq<u32>) -> Seq<u8>
    decreases cps.len(),
{
    if cps.len() == 0 {
        Seq::empty()
    } else {
        utf8_encode(cps[0]) + utf8_encode_all(cps.drop_first())
    }
}

/// Each of `cps` is a Unicode scalar value.
pub open spec fn all_scalar(cps: Seq<u32>) -> bool {
    forall|i: int| 0 <= i < cps.len() ==> #[trigger] cps[i] <= 0x10ffff && !(0xd800 <= cps[i] < 0xe000)
}

/// Law: decoding a UTF-8 string character by character gives back exactly
/// the scalar values it encodes, in order.
pub proof fn law_utf8_decode_all(cps: Seq<u32>)
    requires
        all_scalar(cps),
    ensures
        chars_of(utf8_encode_all(cps)) == cps,
    decreases cps.len(),
{
    if cps.len() > 0 {
        let e = utf8_encode(cps[0]);
        let rest = utf8_encode_all(cps.drop_first());
        let s = utf8_encode_all(cps);
        assert(s == e + rest);
        law_utf8_roundtrip(cps[0], rest);
        assert(all_scalar(cps.drop_first())) by {
            assert forall|i: int| 0 <= i < cps.drop_first().len() implies #[trigger] cps.drop_first()[i] <= 0x10ffff
                && !(0xd800 <= cps.drop_first()[i] < 0xe000) by {
                assert(cps.drop_first()[i] == cps[i + 1]);
            }
        }
        law_utf8_decode_all(cps.drop_first());
        assert(s.subrange(e.len() as int, s.len() as int) =~= rest);
        assert(cps =~= seq![cps[0]] + cps.drop_first());
    }
}

/// The UTF-16 units that `efi_puts` prints for the code point `c`: a
/// newline becomes carriage return and newline, a character of plane 0 is
/// one unit, any other a surrogate pair.
pub open spec fn units(c: u32) -> Seq<u16> {
    if c == 10 {
        seq![13u16, 10u16]
    } else if c < 0x10000 {
        seq![c as u16]
    } else {
        seq![(0xd800 + ((c - 0x10000) as u32 >> 10)) as u16, (0xdc00 + ((c - 0x10000) as u32 & 0x3ff)) as u16]
    }
}

/// The code point that a single UTF-16 unit, or a surrogate pair, encodes.
pub open spec fn utf16_code(u: Seq<u16>) -> int {
    if u.len() == 1 {
        u[0] as int
    } else {
        0x10000 + (u[0] - 0xd800) * 0x400 + (u[1] - 0xdc00)
    }
}

/// A UTF-16 unit in `D800..=DFFF`, half of a surrogate pair.
pub open spec fn is_surrogate(x: u16) -> bool {
    0xd800 <= x < 0xe000
}

/// Law: what `efi_puts` prints for a Unicode scalar value other than a
/// newline is its UTF-16 encoding: one unit equal to the code point in
/// plane 0, else a high surrogate followed by a low one that together
/// encode the code point. A newline is printed as carriage return and
/// newline.
pub proof fn law_units_are_utf16(c: u32)
    requires
        c <= 0x10ffff,
        !(0xd800 <= c < 0xe000),
    ensures
        c == 10 ==> units(c) == seq![13u16, 10u16],
        c != 10 && c < 0x10000 ==> units(c).len() == 1 && !is_surrogate(units(c)[0]) && utf16_code(units(c)) == c,
        c >= 0x10000 ==> {
            &&& units(c).len() == 2
            &&& 0xd800 <= units(c)[0] < 0xdc00
            &&& 0xdc00 <= units(c)[1] < 0xe000
            &&& utf16_code(units(c)) == c
        },
{
    if c >= 0x10000 {
        let hi = (0xd800 + ((c - 0x10000) as u32 >> 10)) as u16;
        let lo = (0xdc00 + ((c - 0x10000) as u32 & 0x3ff)) as u16;
        assert(0xd800 <= hi < 0xdc00 && 0xdc00 <= lo < 0xe000 && 0x10000 + (hi - 0xd800) * 0x400 + (lo - 0xdc00) == c)
            by (bit_vector)
            requires
                0x10000 <= c <= 0x10ffff,
                hi == (0xd800 + ((c - 0x10000) as u32 >> 10)) as u16,
                lo == (0xdc00 + ((c - 0x10000) as u32 & 0x3ff)) as u16;
        assert(units(c) == seq![hi, lo]);
    }
}

/// The strings printed so far, and the pending units, after the code
/// points `cs`: before each code point, a buffer of 125 or more pending
/// units is printed, with a terminating zero.
pub open spec fn puts_fold(cs: Seq<u32>) -> (Seq<Seq<u16>>, Seq<u16>)
    decreases cs.len(),
{
    if cs.len() == 0 {
        (Seq::empty(), Seq::empty())
    } else {
        let (out, cur) = puts_fold(cs.drop_last());
        let (out2, cur2) = if cur.len() >= 125 { (out.push(cur.push(0u16)), Seq::<u16>::empty()) } else { (out, cur) };
        (out2, cur2 + units(cs.last()))
    }
}

/// The zero-terminated UTF-16 strings that `efi_puts` prints for the bytes
/// `s`.
pub open spec fn puts_spec(s: Seq<u8>) -> Seq<Seq<u16>> {
    let (out, cur) = puts_fold(chars_of(s));
    if cur.len() > 0 { out.push(cur.push(0u16)) } else { out }
}

proof fn lemma_puts_fold_bound(cs: Seq<u32>)
    ensures
        puts_fold(cs).1.len() <= 126,
        forall|i: int| 0 <= i < puts_fold(cs).0.len() ==> (#[trigger] puts_fold(cs).0[i]).len() <= 128,
    decreases cs.len(),
{
    if cs.len() > 0 {
        lemma_puts_fold_bound(cs.drop_last());
    }
}

/// The first `n` units of `buf`, copied.
fn copy_prefix(buf: &[u16], n: usize) -> (r: Vec<u16>)
    requires
        n <= buf@.len(),
    ensures
        r@ == buf@.subrange(0, n as int),
{
    let mut out: Vec<u16> = Vec::new();
    let mut i: usize = 0;
    while i < n
        invariant
            i <= n,
            n <= buf@.len(),
            out@ == buf@.subrange(0, i as int),
        decreases n - i,
    {
        out.push(buf[i]);
        i = i + 1;
        assert(out@ =~= buf@.subrange(0, i as int));
    }
    out
}

/// The zero-terminated UTF-16 strings that the UEFI console prints for
/// `s`, each fitting a 128-unit buffer: the text is decoded from UTF-8,
/// each newline is preceded by a carriage return, characters beyond plane 0
/// become surrogate pairs, and a buffer holding 125 or more units is
/// printed before the next character is added. These are the strings that
/// `efi_puts_step` has printed, one after the other.
pub fn efi_puts(s: &str) -> (r: Vec<Vec<u16>>)
    ensures
        r@.len() == puts_spec(s.spec_bytes()).len(),
        forall|i: int| 0 <= i < r@.len() ==> (#[trigger] r@[i])@ == puts_spec(s.spec_bytes())[i],
{
    let bytes = s.as_bytes();
    let ghost sb = bytes@;
    let mut out: Vec<Vec<u16>> = Vec::new();
    let mut buf: Vec<u16> = Vec::new();
    while buf.len() < 128
        invariant
            buf@.len() <= 128,
        decreases 128 - buf@.len(),
    {
        buf.push(0);
    }
    assert(sb == s.spec_bytes());
    let ghost mut done: Seq<u32> = Seq::empty();
    // whether the pending units were just printed, ahead of the next character
    let ghost mut flushed = false;
    let mut pending: usize = 0;
    let mut pos: usize = 0;
    assert(sb.subrange(0, sb.len() as int) =~= sb);
    loop
        invariant
            pos <= bytes@.len(),
            bytes@ == sb,
            sb == s.spec_bytes(),
            buf@.len() == 128,
            pending <= 126,
            chars_of(sb) == done + chars_of(sb.subrange(pos as int, sb.len() as int)),
            !flushed ==> buf@.subrange(0, pending as int) == puts_fold(done).1,
            !flushed ==> out@.len() == puts_fold(done).0.len(),
            !flushed ==> forall|k: int| 0 <= k < out@.len() ==> (#[trigger] out@[k])@ == puts_fold(done).0[k],
            flushed ==> pending == 0 && pos < bytes@.len() && puts_fold(done).1.len() >= 125,
            flushed ==> out@.len() == puts_fold(done).0.len() + 1,
            flushed ==> forall|k: int| 0 <= k < puts_fold(done).0.len() ==> (#[trigger] out@[k])@ == puts_fold(done).0[k],
            flushed ==> out@[puts_fold(done).0.len() as int]@ == puts_fold(done).1.push(0u16),
        decreases bytes@.len() - pos, pending,
    {
        proof {
            lemma_puts_fold_bound(done);
        }
        let ghost b0 = buf@;
        let step = efi_puts_step(bytes, pos, buf.as_mut_slice(), pending);
        match step {
            PutsStep::Done => {
                assert(sb.subrange(pos as int, sb.len() as int) =~= Seq::<u8>::empty());
                assert(chars_of(Seq::<u8>::empty()) =~= Seq::<u32>::empty());
                assert(chars_of(sb) =~= done);
                assert(puts_fold(done).1 =~= Seq::<u16>::empty());
                assert(bytes@ == s.spec_bytes());
                return out;
            },
            PutsStep::Print(n) => {
                let chunk = copy_prefix(buf.as_slice(), n);
                assert(chunk@ =~= puts_fold(done).1.push(0u16));
                out.push(chunk);
                pending = 0;
                if pos == bytes.len() {
                    assert(sb.subrange(pos as int, sb.len() as int) =~= Seq::<u8>::empty());
                    assert(chars_of(Seq::<u8>::empty()) =~= Seq::<u32>::empty());
                    assert(chars_of(sb) =~= done);
                    assert(bytes@ == s.spec_bytes());
                    assert(out@.len() == puts_spec(sb).len());
                    assert forall|i: int| 0 <= i < out@.len() implies (#[trigger] out@[i])@ == puts_spec(sb)[i] by {
                        if i < out@.len() - 1 {
                            assert(out@[i]@ == puts_fold(done).0[i]);
                        }
                    }
                    return out;
                }
                proof {
                    flushed = true;
                }
            },
            PutsStep::Next { pos: np, pending: npend } => {
                let ghost r = sb.subrange(pos as int, sb.len() as int);
                let ghost c = utf8_decoded(r).0;
                let ghost k = utf8_decoded(r).1;
                proof {
                    assert(1 <= k <= r.len());
                    assert(r.subrange(k, r.len() as int) =~= sb.subrange(pos + k, sb.len() as int));
                    assert(chars_of(sb) =~= done.push(c) + chars_of(sb.subrange(pos + k, sb.len() as int)));
                    assert(done.push(c).drop_last() =~= done);
                    assert(done.push(c).last() == c);
                    if flushed {
                        assert(buf@.subrange(0, npend as int) =~= puts_fold(done.push(c)).1);
                    } else {
                        assert(buf@.subrange(0, npend as int) =~= puts_fold(done).1 + units(c));
                    }
                    done = done.push(c);
                    flushed = false;
                }
                pos = np;
                pending = npend;
            },
        }
    }
}

/// What the UEFI console writer does next.
#[derive(Debug, Clone, Copy, PartialEq, Eq, Structural)]
pub enum PutsStep {
    /// The next character was added: continue at byte `pos` with `pending`
    /// units in the buffer.
    Next { pos: usize, pending: usize },
    /// Print the first units of the buffer, this many of them, the last
    /// being the terminating zero; then continue with none pending.
    Print(usize),
    /// All of the text has been printed.
    Done,
}

/// One step of writing the UTF-8 text `s` to the UEFI console through the
/// fixed buffer `buf` of at least 128 units, of which `pending` are filled,
/// continuing at byte `pos`. A buffer of 125 or more units is printed
/// before the next character is added, and what is left at the end is
/// printed too; otherwise the next character is decoded and its units
/// added, as `efi_puts` does.
pub fn efi_puts_step(s: &[u8], pos: usize, buf: &mut [u16], pending: usize) -> (r: PutsStep)
    requires
        pos <= s@.len(),
        pending <= 126,
        old(buf)@.len() >= 128,
    ensures
        final(buf)@.len() == old(buf)@.len(),
        pos == s@.len() && pending == 0 ==> r == PutsStep::Done && final(buf)@ == old(buf)@,
        (pos == s@.len() && pending > 0) || (pos < s@.len() && pending >= 125) ==> r == PutsStep::Print(
            (pending + 1) as usize,
        ) && final(buf)@ == old(buf)@.update(pending as int, 0u16),
        pos < s@.len() && pending < 125 ==> ({
            let (c, k) = utf8_decoded(s@.subrange(pos as int, s@.len() as int));
            let u = units(c);
            &&& r matches PutsStep::Next { pos: np, pending: pn }
            &&& np == pos + k
            &&& pn == pending + u.len()
            &&& final(buf)@ == old(buf)@.subrange(0, pending as int) + u + old(buf)@.subrange(
                pending + u.len(),
                old(buf)@.len() as int,
            )
        }),
{
    if pos == s.len() && pending == 0 {
        return PutsStep::Done;
    }
    if pos == s.len() || pending >= 125 {
        buf[pending] = 0;
        return PutsStep::Print(pending + 1);
    }
    let rest = vstd::slice::slice_subrange(s, pos, s.len());
    let (c, k) = utf8_first(rest);
    let ghost b0 = buf@;
    if c == 10 {
        buf[pending] = 13;
        buf[pending + 1] = 10;
        assert(buf@ =~= b0.subrange(0, pending as int) + units(c) + b0.subrange(pending + 2, b0.len() as int));
        PutsStep::Next { pos: pos + k, pending: pending + 2 }
    } else if c < 0x10000 {
        buf[pending] = c as u16;
        assert(buf@ =~= b0.subrange(0, pending as int) + units(c) + b0.subrange(pending + 1, b0.len() as int));
        PutsStep::Next { pos: pos + k, pending: pending + 1 }
    } else {
        let d: u32 = c - 0x10000;
        assert(d >> 10u32 <= 0x3f_ffffu32 && d & 0x3ffu32 <= 0x3ffu32) by (bit_vector);
        let hi: u32 = 0xd800 + (d >> 10);
        let lo: u32 = 0xdc00 + (d & 0x3ff);
        buf[pending] = hi as u16;
        buf[pending + 1] = lo as u16;
        assert(buf@ =~= b0.subrange(0, pending as int) + units(c) + b0.subrange(pending + 2, b0.len() as int));
        PutsStep::Next { pos: pos + k, pending: pending + 2 }
    }
}

/// The units that `efi_puts` prints for all of `cs`, in order.
pub open spec fn expand_all(cs: Seq<u32>) -> Seq<u16>
    decreases cs.len(),
{
    if cs.len() == 0 {
        Seq::empty()
    } else {
        expand_all(cs.drop_last()) + units(cs.last())
    }
}

/// The strings `chunks` joined, each without its last unit (its
/// terminator).
pub open spec fn join_unterminated(chunks: Seq<Seq<u16>>) -> Seq<u16>
    decreases chunks.len(),
{
    if chunks.len() == 0 {
        Seq::empty()
    } else {
        join_unterminated(chunks.drop_last()) + chunks.last().drop_last()
    }
}

proof fn lemma_puts_fold_content(cs: Seq<u32>)
    ensures
        join_unterminated(puts_fold(cs).0) + puts_fold(cs).1 == expand_all(cs),
        forall|i: int| 0 <= i < puts_fold(cs).0.len() ==> {
            let c = #[trigger] puts_fold(cs).0[i];
            &&& 2 <= c.len() <= 128
            &&& c.last() == 0u16
        },
    decreases cs.len(),
{
    if cs.len() > 0 {
        let p = cs.drop_last();
        lemma_puts_fold_content(p);
        lemma_puts_fold_bound(p);
        let (out, cur) = puts_fold(p);
        if cur.len() >= 125 {
            let out2 = out.push(cur.push(0u16));
            assert(out2.drop_last() =~= out);
            assert(cur.push(0u16).drop_last() =~= cur);
            assert(join_unterminated(out2) =~= join_unterminated(out) + cur);
            assert(join_unterminated(out2) + (Seq::<u16>::empty() + units(cs.last())) =~= expand_all(cs));
        } else {
            assert(join_unterminated(out) + (cur + units(cs.last())) =~= expand_all(cs));
        }
    }
}

/// What `efi_puts` prints is the decoded text in UTF-16, each newline
/// preceded by a carriage return, cut into zero-terminated strings of at
/// most 128 units: the strings without their terminators join to exactly
/// that text.
pub proof fn law_efi_puts_content(s: Seq<u8>)
    ensures
        join_unterminated(puts_spec(s)) == expand_all(chars_of(s)),
        forall|i: int| 0 <= i < puts_spec(s).len() ==> {
            let c = #[trigger] puts_spec(s)[i];
            &&& 2 <= c.len() <= 128
            &&& c.last() == 0u16
        },
{
    let cs = chars_of(s);
    lemma_puts_fold_content(cs);
    lemma_puts_fold_bound(cs);
    let (out, cur) = puts_fold(cs);
    if cur.len() > 0 {
        let out2 = out.push(cur.push(0u16));
        assert(out2.drop_last() =~= out);
        assert(cur.push(0u16).drop_last() =~= cur);
        assert(join_unterminated(out2) =~= expand_all(cs));
    } else {
        assert(join_unterminated(out) =~= expand_all(cs));
    }
}

/// The code points of the UTF-16 text `u`: a high surrogate followed by
/// another unit is read as a pair, any other unit as itself.
pub open spec fn utf16_decode(u: Seq<u16>) -> Seq<u32>
    decreases u.len(),
{
    if u.len() == 0 {
        Seq::empty()
    } else if 0xd800 <= u[0] < 0xdc00 && u.len() >= 2 {
        seq![utf16_code(u.take(2)) as u32] + utf16_decode(u.skip(2))
    } else {
        seq![u[0] as u32] + utf16_decode(u.skip(1))
    }
}

/// The code points `cs` with a carriage return before each newline.
pub open spec fn crlf_text(cs: Seq<u32>) -> Seq<u32>
    decreases cs.len(),
{
    if cs.len() == 0 {
        Seq::empty()
    } else {
        let head: Seq<u32> = if cs[0] == 10 { seq![13u32, 10u32] } else { seq![cs[0]] };
        head + crlf_text(cs.drop_first())
    }
}

proof fn lemma_expand_all_front(cs: Seq<u32>)
    requires
        cs.len() > 0,
    ensures
        expand_all(cs) == units(cs[0]) + expand_all(cs.drop_first()),
    decreases cs.len(),
{
    if cs.len() == 1 {
        assert(cs.drop_last() =~= Seq::<u32>::empty());
        assert(cs.drop_first() =~= Seq::<u32>::empty());
        assert(expand_all(cs) =~= units(cs[0]) + expand_all(cs.drop_first()));
    } else {
        let p = cs.drop_last();
        lemma_expand_all_front(p);
        assert(cs.drop_first().drop_last() =~= p.drop_first());
        assert(cs.drop_first().last() == cs.last());
        assert(p[0] == cs[0]);
        assert(expand_all(cs) =~= units(cs[0]) + expand_all(cs.drop_first()));
    }
}

proof fn lemma_decode_units(c: u32, rest: Seq<u16>)
    requires
        c <= 0x10ffff,
        !(0xd800 <= c < 0xe000),
    ensures
        utf16_decode(units(c) + rest) == (if c == 10 { seq![13u32, 10u32] } else { seq![c] }) + utf16_decode(rest),
{
    law_units_are_utf16(c);
    let u = units(c) + rest;
    if c == 10 {
        assert(u.skip(1) =~= seq![10u16] + rest);
        assert((seq![10u16] + rest).skip(1) =~= rest);
        assert(utf16_decode(seq![10u16] + rest) =~= seq![10u32] + utf16_decode(rest));
        assert(utf16_decode(u) =~= seq![13u32, 10u32] + utf16_decode(rest));
    } else if c < 0x10000 {
        assert(u.skip(1) =~= rest);
        assert(utf16_decode(u) =~= seq![c] + utf16_decode(rest));
    } else {
        assert(u.take(2) =~= units(c));
        assert(u.skip(2) =~= rest);
        assert(utf16_decode(u) =~= seq![c] + utf16_decode(rest));
    }
}

/// Law: the UTF-16 text of `cs` as `efi_puts` lays it out decodes back to
/// `cs`, with a carriage return before each newline.
pub proof fn law_expand_all_decodes(cs: Seq<u32>)
    requires
        all_scalar(cs),
    ensures
        utf16_decode(expand_all(cs)) == crlf_text(cs),
    decreases cs.len(),
{
    if cs.len() > 0 {
        lemma_expand_all_front(cs);
        let t = cs.drop_first();
        assert(all_scalar(t)) by {
            assert forall|i: int| 0 <= i < t.len() implies #[trigger] t[i] <= 0x10ffff && !(0xd800 <= t[i] < 0xe000) by {
                assert(t[i] == cs[i + 1]);
            }
        }
        assert(cs[0] <= 0x10ffff && !(0xd800 <= cs[0] < 0xe000));
        law_expand_all_decodes(t);
        lemma_decode_units(cs[0], expand_all(t));
        let head: Seq<u32> = if cs[0] == 10 { seq![13u32, 10u32] } else { seq![cs[0]] };
        assert(crlf_text(cs) == head + crlf_text(t));
    }
}

/// Law: what `efi_puts` prints for the UTF-8 text of the scalar values
/// `cps`, its strings joined without their terminators, is UTF-16 that
/// decodes back to `cps`, with a carriage return before each newline.
pub proof fn law_efi_puts_prints_the_text(cps: Seq<u32>)
    requires
        all_scalar(cps),
    ensures
        utf16_decode(join_unterminated(puts_spec(utf8_encode_all(cps)))) == crlf_text(cps),
{
    law_efi_puts_content(utf8_encode_all(cps));
    law_utf8_decode_all(cps);
    law_expand_all_decodes(cps);
}

} // verus!

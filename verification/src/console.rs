//! The boot console's byte output.

use vstd::prelude::*;

verus! {

/// The pieces that `write_bytes` hands to the architecture's debug output
/// for `s`: when `s` ends in a newline without a carriage return before it,
/// all but its last two bytes, then `\r\n`, then `s` itself; otherwise `s`.
pub open spec fn console_pieces(s: Seq<u8>) -> Seq<Seq<u8>> {
    if s.len() >= 2 && s[s.len() - 1] == 10 && s[s.len() - 2] != 13 {
        seq![s.subrange(0, s.len() - 2), seq![13u8, 10u8], s]
    } else {
        seq![s]
    }
}

/// The pieces that the console writes for `s`, in order.
pub fn write_bytes(s: &[u8]) -> (r: Vec<Vec<u8>>)
    ensures
        r@.len() == console_pieces(s@).len(),
        forall|i: int| 0 <= i < r@.len() ==> (#[trigger] r@[i])@ == console_pieces(s@)[i],
{
    let mut whole: Vec<u8> = Vec::new();
    let mut i: usize = 0;
    while i < s.len()
        invariant
            i <= s.len(),
            whole@ == s@.take(i as int),
        decreases s.len() - i,
    {
        whole.push(s[i]);
        i = i + 1;
        assert(whole@ =~= s@.take(i as int));
    }
    assert(s@.take(s@.len() as int) =~= s@);
    let mut out: Vec<Vec<u8>> = Vec::new();
    let len = s.len();
    if len >= 2 && s[len - 1] == 10 && s[len - 2] != 13 {
        let mut head: Vec<u8> = Vec::new();
        let mut j: usize = 0;
        while j < len - 2
            invariant
                len == s@.len(),
                len >= 2,
                j <= len - 2,
                head@ == s@.take(j as int),
            decreases len - 2 - j,
        {
            head.push(s[j]);
            j = j + 1;
            assert(head@ =~= s@.take(j as int));
        }
        assert(head@ =~= s@.subrange(0, len - 2));
        out.push(head);
        let mut crlf: Vec<u8> = Vec::new();
        crlf.push(13);
        crlf.push(10);
        assert(crlf@ =~= seq![13u8, 10u8]);
        out.push(crlf);
    }
    out.push(whole);
    out
}

} // verus!

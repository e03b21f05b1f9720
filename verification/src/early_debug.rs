//! The early debug console: the decisions of its byte, buffer and line
//! readers and of its writer. Each reader is a step function: it takes the
//! reader's state and the result of one receive attempt, and says whether
//! to receive again or what the read returns. The caller performs the
//! receive (and spins between attempts that found no data).

use vstd::prelude::*;
use vstd::string::StringSliceAdditionalSpecFns;

verus! {

/// A receive error.
#[derive(Debug, Clone, Copy, PartialEq, Eq, Structural)]
pub enum RError {
    NoData,
    Timeout,
    ParityError,
    FrameError,
    Overrun,
    BufferFull,
    Other,
}

/// A transmit error.
#[derive(Debug, Clone, Copy, PartialEq, Eq, Structural)]
pub enum TError {
    ReTry,
    Other,
}

/// What a reader does next.
#[derive(Debug)]
pub enum ReadStep<T> {
    /// Receive another byte (spinning first when the last attempt found no
    /// data).
    Again,
    /// The read is over and returns this.
    Done(Result<T, RError>),
}

/// The receive function of a console without a receiver: there is never
/// any data.
pub fn empty_rx() -> (r: Result<u8, RError>)
    ensures
        r == Err::<u8, RError>(RError::NoData),
{
    Err(RError::NoData)
}

/// The transmit function of a console without a transmitter: every byte is
/// accepted.
pub fn empty_tx(b: u8) -> (r: Result<(), TError>)
    ensures
        r == Ok::<(), TError>(()),
{
    Ok(())
}

/// One attempt of the blocking single-byte read: a byte or an error ends
/// the read, no data means receive again.
pub open spec fn read_byte_spec(ev: Result<u8, RError>) -> ReadStep<u8> {
    match ev {
        Ok(b) => ReadStep::Done(Ok(b)),
        Err(RError::NoData) => ReadStep::Again,
        Err(e) => ReadStep::Done(Err(e)),
    }
}

/// Blocking read of one byte: decides on one receive attempt.
pub fn read_byte(ev: Result<u8, RError>) -> (r: ReadStep<u8>)
    ensures
        r == read_byte_spec(ev),
{
    match ev {
        Ok(b) => ReadStep::Done(Ok(b)),
        Err(RError::NoData) => ReadStep::Again,
        Err(e) => ReadStep::Done(Err(e)),
    }
}

/// Read of one byte with at most `max_spins` receive attempts: what to do
/// before the first attempt.
pub fn read_byte_timeout_begin(max_spins: usize) -> (r: ReadStep<u8>)
    ensures
        max_spins == 0 ==> r == ReadStep::<u8>::Done(Err(RError::Timeout)),
        max_spins > 0 ==> r == ReadStep::<u8>::Again,
{
    if max_spins == 0 {
        ReadStep::Done(Err(RError::Timeout))
    } else {
        ReadStep::Again
    }
}

/// Read of one byte with at most `max_spins` receive attempts: decides on
/// attempt number `attempt` (counted from zero), whose result is `ev`.
pub fn read_byte_timeout(attempt: usize, max_spins: usize, ev: Result<u8, RError>) -> (r: ReadStep<u8>)
    requires
        attempt < max_spins,
    ensures
        r == (match ev {
            Ok(b) => ReadStep::Done(Ok(b)),
            Err(RError::NoData) => if attempt + 1 >= max_spins {
                ReadStep::Done(Err(RError::Timeout))
            } else {
                ReadStep::Again
            },
            Err(e) => ReadStep::Done(Err(e)),
        }),
{
    match ev {
        Ok(b) => ReadStep::Done(Ok(b)),
        Err(RError::NoData) => {
            if attempt + 1 >= max_spins {
                ReadStep::Done(Err(RError::Timeout))
            } else {
                ReadStep::Again
            }
        },
        Err(e) => ReadStep::Done(Err(e)),
    }
}

/// Non-blocking read into `buffer`: what to do before the first attempt;
/// an empty buffer is read at once, with nothing.
pub fn read_bytes_begin(buffer: &[u8]) -> (r: ReadStep<usize>)
    ensures
        buffer@.len() == 0 ==> r == ReadStep::<usize>::Done(Ok(0)),
        buffer@.len() > 0 ==> r == ReadStep::<usize>::Again,
{
    if buffer.len() == 0 {
        ReadStep::Done(Ok(0))
    } else {
        ReadStep::Again
    }
}

/// Non-blocking read into `buffer`, of which `count` bytes are filled:
/// decides on one receive attempt. A byte is stored at `count`; no data ends
/// the read with the count so far; an error ends it with the error.
pub fn read_bytes(count: usize, buffer: &mut [u8], ev: Result<u8, RError>) -> (r: ReadStep<usize>)
    requires
        count < old(buffer)@.len(),
    ensures
        match ev {
            Ok(b) => {
                &&& final(buffer)@ == old(buffer)@.update(count as int, b)
                &&& r == if count + 1 == old(buffer)@.len() {
                    ReadStep::Done(Ok((count + 1) as usize))
                } else {
                    ReadStep::<usize>::Again
                }
            },
            Err(RError::NoData) => final(buffer)@ == old(buffer)@ && r == ReadStep::<usize>::Done(Ok(count)),
            Err(e) => final(buffer)@ == old(buffer)@ && r == ReadStep::<usize>::Done(Err(e)),
        },
{
    match ev {
        Ok(b) => {
            let len = buffer.len();
            buffer[count] = b;
            if count + 1 == len {
                ReadStep::Done(Ok(count + 1))
            } else {
                ReadStep::Again
            }
        },
        Err(RError::NoData) => ReadStep::Done(Ok(count)),
        Err(e) => ReadStep::Done(Err(e)),
    }
}

/// Blocking read that fills `buffer`, of which `count` bytes are filled:
/// decides on one receive attempt. A byte is stored at `count`; no data
/// means receive again; an error ends the read.
pub fn read_bytes_blocking(count: usize, buffer: &mut [u8], ev: Result<u8, RError>) -> (r: ReadStep<usize>)
    requires
        count < old(buffer)@.len(),
    ensures
        match ev {
            Ok(b) => {
                &&& final(buffer)@ == old(buffer)@.update(count as int, b)
                &&& r == if count + 1 == old(buffer)@.len() {
                    ReadStep::Done(Ok((count + 1) as usize))
                } else {
                    ReadStep::<usize>::Again
                }
            },
            Err(RError::NoData) => final(buffer)@ == old(buffer)@ && r == ReadStep::<usize>::Again,
            Err(e) => final(buffer)@ == old(buffer)@ && r == ReadStep::<usize>::Done(Err(e)),
        },
{
    match ev {
        Ok(b) => {
            let len = buffer.len();
            buffer[count] = b;
            if count + 1 == len {
                ReadStep::Done(Ok(count + 1))
            } else {
                ReadStep::Again
            }
        },
        Err(RError::NoData) => ReadStep::Again,
        Err(e) => ReadStep::Done(Err(e)),
    }
}

} // verus!

verus! {

/// The state of a line read: bytes stored so far, whether the line was
/// just ended by a carriage return (whose companion byte is still to be
/// taken), and the receive attempts in a row that found no data.
#[derive(Debug, Clone, Copy, PartialEq, Eq, Structural)]
pub struct LineReader {
    pub count: usize,
    pub after_cr: bool,
    pub spins: usize,
}

impl LineReader {
    /// A line read that has received nothing.
    pub fn new() -> (r: LineReader)
        ensures
            r == (LineReader { count: 0, after_cr: false, spins: 0 }),
    {
        LineReader { count: 0, after_cr: false, spins: 0 }
    }
}

pub open spec fn is_nl(b: u8) -> bool {
    b == 10
}

pub open spec fn is_cr(b: u8) -> bool {
    b == 13
}

/// Whether `b` ends a line: a newline or a carriage return.
pub open spec fn ends_line(b: u8) -> bool {
    is_nl(b) || is_cr(b)
}

/// The byte that a line-read step stores at `st.count`, if any: every
/// byte of the line, but neither the byte that ends it nor the byte taken
/// after a carriage return.
pub open spec fn line_store(st: LineReader, ev: Result<u8, RError>) -> Option<u8> {
    match ev {
        Ok(b) => if st.after_cr || ends_line(b) { None } else { Some(b) },
        Err(_) => None,
    }
}

/// The next state and decision of a line read into a buffer of `cap`
/// bytes. A newline ends the line; a carriage return ends it too, and the
/// read then takes one more byte, the newline of a `\r\n` pair or whatever
/// follows, which is not part of the line. Neither ending byte is stored;
/// other bytes are stored, and a full buffer ends the read.
pub open spec fn line_next(st: LineReader, cap: usize, ev: Result<u8, RError>) -> (LineReader, ReadStep<usize>) {
    match ev {
        Err(RError::NoData) => (st, ReadStep::Again),
        Err(e) => (st, ReadStep::Done(Err(e))),
        Ok(b) => if st.after_cr {
            (st, ReadStep::Done(Ok(st.count)))
        } else if is_nl(b) {
            (st, ReadStep::Done(Ok(st.count)))
        } else if is_cr(b) {
            (LineReader { after_cr: true, ..st }, ReadStep::Again)
        } else {
            let c = (st.count + 1) as usize;
            (LineReader { count: c, ..st }, if c >= cap { ReadStep::Done(Err(RError::BufferFull)) } else { ReadStep::Again })
        },
    }
}

/// The buffer after a line-read step.
pub open spec fn line_buffer(st: LineReader, buf: Seq<u8>, ev: Result<u8, RError>) -> Seq<u8> {
    match line_store(st, ev) {
        Some(b) => buf.update(st.count as int, b),
        None => buf,
    }
}

/// A line read into `buffer`: what to do before the first attempt. An
/// empty buffer is full at once.
pub fn read_line_begin(buffer: &[u8]) -> (r: ReadStep<usize>)
    ensures
        buffer@.len() == 0 ==> r == ReadStep::<usize>::Done(Err(RError::BufferFull)),
        buffer@.len() > 0 ==> r == ReadStep::<usize>::Again,
{
    if buffer.len() == 0 {
        ReadStep::Done(Err(RError::BufferFull))
    } else {
        ReadStep::Again
    }
}

/// A blocking line read into `buffer`, ended by `\n` or `\r`: decides on one
/// receive attempt.
pub fn read_line(st: &mut LineReader, buffer: &mut [u8], ev: Result<u8, RError>) -> (r: ReadStep<usize>)
    requires
        old(st).count < old(buffer)@.len(),
    ensures
        (*final(st), r) == line_next(*old(st), old(buffer)@.len() as usize, ev),
        final(buffer)@ == line_buffer(*old(st), old(buffer)@, ev),
{
    let len = buffer.len();
    match ev {
        Err(RError::NoData) => ReadStep::Again,
        Err(e) => ReadStep::Done(Err(e)),
        Ok(b) => {
            if st.after_cr || b == 10 {
                ReadStep::Done(Ok(st.count))
            } else if b == 13 {
                st.after_cr = true;
                ReadStep::Again
            } else {
                buffer[st.count] = b;
                st.count = st.count + 1;
                if st.count >= len {
                    ReadStep::Done(Err(RError::BufferFull))
                } else {
                    ReadStep::Again
                }
            }
        },
    }
}

/// The next state and decision of a line read with a limit of `max` receive
/// attempts in a row without data; as `line_next`, and any received byte
/// resets the count of empty attempts.
pub open spec fn line_next_timeout(st: LineReader, cap: usize, max: usize, ev: Result<u8, RError>) -> (LineReader, ReadStep<usize>) {
    match ev {
        Err(RError::NoData) => {
            let s = (st.spins + 1) as usize;
            (LineReader { spins: s, ..st }, if s >= max { ReadStep::Done(Err(RError::Timeout)) } else { ReadStep::Again })
        },
        Err(e) => (st, ReadStep::Done(Err(e))),
        Ok(b) => {
            let (n, step) = line_next(st, cap, ev);
            (LineReader { spins: 0, ..n }, step)
        },
    }
}

/// A line read with a limit on empty attempts: what to do before the first
/// attempt. An empty buffer is full at once; a limit of zero times out at
/// once.
pub fn read_line_timeout_begin(buffer: &[u8], max_spins: usize) -> (r: ReadStep<usize>)
    ensures
        buffer@.len() == 0 ==> r == ReadStep::<usize>::Done(Err(RError::BufferFull)),
        buffer@.len() > 0 && max_spins == 0 ==> r == ReadStep::<usize>::Done(Err(RError::Timeout)),
        buffer@.len() > 0 && max_spins > 0 ==> r == ReadStep::<usize>::Again,
{
    if buffer.len() == 0 {
        ReadStep::Done(Err(RError::BufferFull))
    } else if max_spins == 0 {
        ReadStep::Done(Err(RError::Timeout))
    } else {
        ReadStep::Again
    }
}

/// A line read that gives up after `max_spins` receive attempts in a row
/// without data: decides on one receive attempt.
pub fn read_line_timeout(st: &mut LineReader, buffer: &mut [u8], max_spins: usize, ev: Result<u8, RError>) -> (r: ReadStep<usize>)
    requires
        old(st).count < old(buffer)@.len(),
        old(st).spins < max_spins,
    ensures
        (*final(st), r) == line_next_timeout(*old(st), old(buffer)@.len() as usize, max_spins, ev),
        final(buffer)@ == line_buffer(*old(st), old(buffer)@, ev),
{
    match ev {
        Err(RError::NoData) => {
            st.spins = st.spins + 1;
            if st.spins >= max_spins {
                ReadStep::Done(Err(RError::Timeout))
            } else {
                ReadStep::Again
            }
        },
        Err(e) => ReadStep::Done(Err(e)),
        Ok(_) => {
            let r = read_line(st, buffer, ev);
            st.spins = 0;
            r
        },
    }
}

/// The buffer and the outcome after feeding the receive results `evs` to a
/// line read, stopping at the first decision that ends it; `None` when the
/// results run out first.
pub open spec fn run_line(st: LineReader, cap: usize, buf: Seq<u8>, evs: Seq<Result<u8, RError>>) -> (Seq<u8>, Option<Result<usize, RError>>)
    decreases evs.len(),
{
    if evs.len() == 0 {
        (buf, None)
    } else {
        let (st2, step) = line_next(st, cap, evs[0]);
        let buf2 = line_buffer(st, buf, evs[0]);
        match step {
            ReadStep::Done(r) => (buf2, Some(r)),
            ReadStep::Again => run_line(st2, cap, buf2, evs.subrange(1, evs.len() as int)),
        }
    }
}

/// How a line can end on the wire: a newline, or a carriage return and the
/// byte after it.
pub open spec fn line_end(term: Seq<u8>) -> bool {
    term == seq![10u8] || (term.len() == 2 && is_cr(term[0]))
}

/// The receive results that deliver the bytes `bytes`.
pub open spec fn received(bytes: Seq<u8>) -> Seq<Result<u8, RError>> {
    bytes.map_values(|b: u8| Ok::<u8, RError>(b))
}

/// Law: a line of ordinary bytes followed by a newline, or by a carriage
/// return and one more byte (such as the newline of `\r\n`), is read back
/// whole: the read returns its length, the buffer holds it, and the bytes
/// that end it are not stored. This holds when the line fits with room to
/// spare.
pub proof fn law_read_line_gives_back(k: usize, cap: usize, buf: Seq<u8>, p: Seq<u8>, term: Seq<u8>)
    requires
        buf.len() == cap,
        k + p.len() < cap,
        forall|i: int| 0 <= i < p.len() ==> !ends_line(#[trigger] p[i]),
        line_end(term),
    ensures
        run_line(LineReader { count: k, after_cr: false, spins: 0 }, cap, buf, received(p + term)) == (
            buf.subrange(0, k as int) + p + buf.subrange(k + p.len(), cap as int),
            Some(Ok::<usize, RError>((k + p.len()) as usize)),
        ),
    decreases p.len(),
{
    let st = LineReader { count: k, after_cr: false, spins: 0 };
    let evs = received(p + term);
    if p.len() == 0 {
        assert(p + term =~= term);
        assert(evs[0] == Ok::<u8, RError>(term[0]));
        assert(buf.subrange(0, k as int) + p + buf.subrange(k as int, cap as int) =~= buf);
        if term.len() == 2 {
            let st2 = LineReader { count: k, after_cr: true, spins: 0 };
            let rest = evs.subrange(1, evs.len() as int);
            assert(rest[0] == Ok::<u8, RError>(term[1]));
            assert(run_line(st2, cap, buf, rest) == (buf, Some(Ok::<usize, RError>(k))));
        }
    } else {
        let b = p[0];
        assert(evs[0] == Ok::<u8, RError>(b));
        let st2 = LineReader { count: (k + 1) as usize, after_cr: false, spins: 0 };
        let buf2 = buf.update(k as int, b);
        let q = p.subrange(1, p.len() as int);
        assert forall|i: int| 0 <= i < q.len() implies !ends_line(#[trigger] q[i]) by {
            assert(q[i] == p[i + 1]);
        }
        law_read_line_gives_back((k + 1) as usize, cap, buf2, q, term);
        assert(evs.subrange(1, evs.len() as int) =~= received(q + term));
        assert(buf2.subrange(0, k + 1) + q + buf2.subrange(k + 1 + q.len(), cap as int)
            =~= buf.subrange(0, k as int) + p + buf.subrange(k + p.len(), cap as int));
    }
}

} // verus!

verus! {

/// What the console writer does next.
#[derive(Debug, Clone, Copy, PartialEq, Eq, Structural)]
pub enum WriteStep {
    /// Transmit this byte.
    Send(u8),
    /// Every byte is handled; the write returns `Ok(())`.
    Done,
}

/// Writing `bytes`: what to do first.
pub fn write_bytes_begin(bytes: &[u8]) -> (r: WriteStep)
    ensures
        bytes@.len() == 0 ==> r == WriteStep::Done,
        bytes@.len() > 0 ==> r == WriteStep::Send(bytes@[0]),
{
    if bytes.len() == 0 {
        WriteStep::Done
    } else {
        WriteStep::Send(bytes[0])
    }
}

/// Writing `bytes`: decides on the transmit result `ev` of the byte at
/// `*pos`. A transmitter that asks to retry gets the same byte again; an
/// accepted byte, or one that failed otherwise, moves on to the next.
pub fn write_bytes(pos: &mut usize, bytes: &[u8], ev: Result<(), TError>) -> (r: WriteStep)
    requires
        *old(pos) < bytes@.len(),
    ensures
        ev == Err::<(), TError>(TError::ReTry) ==> *final(pos) == *old(pos) && r == WriteStep::Send(bytes@[*old(pos) as int]),
        ev != Err::<(), TError>(TError::ReTry) ==> *final(pos) == *old(pos) + 1 && (if *final(pos) == bytes@.len() {
            r == WriteStep::Done
        } else {
            r == WriteStep::Send(bytes@[*final(pos) as int])
        }),
{
    let p = *pos;
    let n = bytes.len();
    assert(p < n);
    match ev {
        Err(TError::ReTry) => WriteStep::Send(bytes[p]),
        _ => {
            *pos = p + 1;
            if *pos == bytes.len() {
                WriteStep::Done
            } else {
                WriteStep::Send(bytes[*pos])
            }
        },
    }
}

/// Writing the UTF-8 bytes of `s`: what to do first.
pub fn write_str_begin(s: &str) -> (r: WriteStep)
    ensures
        s.spec_bytes().len() == 0 ==> r == WriteStep::Done,
        s.spec_bytes().len() > 0 ==> r == WriteStep::Send(s.spec_bytes()[0]),
{
    write_bytes_begin(s.as_bytes())
}

/// Writing the UTF-8 bytes of `s`, byte by byte as `write_bytes` does:
/// decides on the transmit result `ev` of the byte at `*pos`.
pub fn write_str(pos: &mut usize, s: &str, ev: Result<(), TError>) -> (r: WriteStep)
    requires
        *old(pos) < s.spec_bytes().len(),
    ensures
        ev == Err::<(), TError>(TError::ReTry) ==> *final(pos) == *old(pos) && r == WriteStep::Send(s.spec_bytes()[*old(pos) as int]),
        ev != Err::<(), TError>(TError::ReTry) ==> *final(pos) == *old(pos) + 1 && (if *final(pos) == s.spec_bytes().len() {
            r == WriteStep::Done
        } else {
            r == WriteStep::Send(s.spec_bytes()[*final(pos) as int])
        }),
{
    write_bytes(pos, s.as_bytes(), ev)
}

/// The number of accepted transmissions among `evs`.
pub open spec fn ok_count(evs: Seq<Result<(), TError>>) -> nat
    decreases evs.len(),
{
    if evs.len() == 0 {
        0
    } else {
        (if evs[0] is Ok { 1nat } else { 0nat }) + ok_count(evs.drop_first())
    }
}

/// The bytes that a write of `bytes`, at position `pos`, gets accepted by a
/// transmitter answering `evs`, and the position it reaches: a retry offers
/// the same byte again, any other answer moves on.
pub open spec fn run_write(pos: nat, bytes: Seq<u8>, evs: Seq<Result<(), TError>>) -> (Seq<u8>, nat)
    decreases evs.len(),
{
    if evs.len() == 0 || pos >= bytes.len() {
        (Seq::empty(), pos)
    } else {
        let ev = evs[0];
        let next = if ev == Err::<(), TError>(TError::ReTry) { pos } else { pos + 1 };
        let (rest, fin) = run_write(next, bytes, evs.drop_first());
        (if ev is Ok { seq![bytes[pos as int]] + rest } else { rest }, fin)
    }
}

/// Law: a transmitter that only accepts or asks to retry gets every byte
/// once, in order, once it has accepted as many bytes as remain.
pub proof fn law_write_sends_in_order(pos: nat, bytes: Seq<u8>, evs: Seq<Result<(), TError>>)
    requires
        pos <= bytes.len(),
        forall|i: int| 0 <= i < evs.len() ==> #[trigger] evs[i] != Err::<(), TError>(TError::Other),
        ok_count(evs) == bytes.len() - pos,
    ensures
        run_write(pos, bytes, evs) == (bytes.subrange(pos as int, bytes.len() as int), bytes.len()),
    decreases evs.len(),
{
    if evs.len() == 0 {
        assert(bytes.subrange(pos as int, bytes.len() as int) =~= Seq::<u8>::empty());
    } else if pos >= bytes.len() {
        assert(bytes.subrange(pos as int, bytes.len() as int) =~= Seq::<u8>::empty());
    } else {
        let t = evs.drop_first();
        assert forall|i: int| 0 <= i < t.len() implies #[trigger] t[i] != Err::<(), TError>(TError::Other) by {
            assert(t[i] == evs[i + 1]);
        }
        assert(evs[0] != Err::<(), TError>(TError::Other));
        if evs[0] is Ok {
            law_write_sends_in_order(pos + 1, bytes, t);
            assert(seq![bytes[pos as int]] + bytes.subrange(pos as int + 1, bytes.len() as int)
                =~= bytes.subrange(pos as int, bytes.len() as int));
        } else {
            match evs[0] {
                Err(TError::Other) => assert(false),
                _ => {},
            }
            law_write_sends_in_order(pos, bytes, t);
        }
    }
}

} // verus!

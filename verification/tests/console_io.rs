use somehal::console;
use somehal::early_debug::{
    empty_rx, empty_tx, read_byte, read_byte_timeout, read_byte_timeout_begin, read_bytes, read_bytes_begin,
    read_bytes_blocking, read_line, read_line_begin, read_line_timeout, read_line_timeout_begin, write_bytes,
    write_bytes_begin, write_str, write_str_begin, LineReader, RError, ReadStep, TError, WriteStep,
};

fn rx(bytes: &[u8]) -> Vec<Result<u8, RError>> {
    bytes.iter().map(|&b| Ok(b)).collect()
}

/// Runs a line read over the receive results `evs`; `None` when they run out.
fn run_line(buf: &mut [u8], evs: &[Result<u8, RError>]) -> Option<Result<usize, RError>> {
    if let ReadStep::Done(r) = read_line_begin(buf) {
        return Some(r);
    }
    let mut st = LineReader::new();
    for &ev in evs {
        match read_line(&mut st, buf, ev) {
            ReadStep::Again => continue,
            ReadStep::Done(r) => return Some(r),
        }
    }
    None
}

fn run_line_timeout(buf: &mut [u8], max: usize, evs: &[Result<u8, RError>]) -> Option<Result<usize, RError>> {
    if let ReadStep::Done(r) = read_line_timeout_begin(buf, max) {
        return Some(r);
    }
    let mut st = LineReader::new();
    for &ev in evs {
        match read_line_timeout(&mut st, buf, max, ev) {
            ReadStep::Again => continue,
            ReadStep::Done(r) => return Some(r),
        }
    }
    None
}

#[test]
fn a_line_ended_by_newline_is_read_back() {
    let mut buf = [0u8; 16];
    assert_eq!(run_line(&mut buf, &rx(b"hello\n")), Some(Ok(5)));
    assert_eq!(&buf[..5], b"hello");
    assert!(buf[5..].iter().all(|&b| b == 0));
}

#[test]
fn no_data_makes_the_line_read_wait() {
    let mut buf = [0u8; 8];
    let evs = [Err(RError::NoData), Ok(b'o'), Err(RError::NoData), Ok(b'k'), Ok(b'\n')];
    assert_eq!(run_line(&mut buf, &evs), Some(Ok(2)));
    assert_eq!(&buf[..2], b"ok");
}

/// Runs a line read and also says how many receive results it took.
fn run_line_taken(buf: &mut [u8], evs: &[Result<u8, RError>]) -> (Option<Result<usize, RError>>, usize) {
    let mut st = LineReader::new();
    for (i, &ev) in evs.iter().enumerate() {
        if let ReadStep::Done(r) = read_line(&mut st, buf, ev) {
            return (Some(r), i + 1);
        }
    }
    (None, evs.len())
}

#[test]
fn carriage_return_ends_the_line() {
    // the byte after a carriage return is taken but is not part of the line
    let mut buf = [0u8; 4];
    assert_eq!(run_line(&mut buf, &rx(b"ab\rc")), Some(Ok(2)));
    assert_eq!(buf, [b'a', b'b', 0, 0]);
    // "\r\n" is one line ending: the newline is taken with it
    let mut buf = [0u8; 4];
    assert_eq!(run_line_taken(&mut buf, &rx(b"ab\r\nx")), (Some(Ok(2)), 4));
    assert_eq!(buf, [b'a', b'b', 0, 0]);
    let mut buf = [0u8; 8];
    assert_eq!(run_line(&mut buf, &rx(b"\n")), Some(Ok(0)));
    let mut buf = [0u8; 8];
    assert_eq!(run_line(&mut buf, &rx(b"\r\n")), Some(Ok(0)));
    // after a carriage return the read waits for the next byte
    let mut buf = [0u8; 8];
    assert_eq!(run_line(&mut buf, &rx(b"\r")), None);
    let evs = [Ok(b'q'), Ok(b'\r'), Err(RError::NoData), Ok(b'\n')];
    assert_eq!(run_line_taken(&mut buf, &evs), (Some(Ok(1)), 4));
}

#[test]
fn a_line_that_fills_the_buffer_is_an_error() {
    let mut buf = [0u8; 3];
    assert_eq!(run_line(&mut buf, &rx(b"abcd\n")), Some(Err(RError::BufferFull)));
    assert_eq!(&buf, b"abc");
    let mut empty: [u8; 0] = [];
    assert_eq!(run_line(&mut empty, &rx(b"x\n")), Some(Err(RError::BufferFull)));
}

#[test]
fn receive_errors_end_the_line_read() {
    let mut buf = [0u8; 8];
    let evs = [Ok(b'a'), Err(RError::Overrun), Ok(b'\n')];
    assert_eq!(run_line(&mut buf, &evs), Some(Err(RError::Overrun)));
    let evs = [Ok(b'a'), Ok(b'\r'), Err(RError::FrameError)];
    assert_eq!(run_line(&mut buf, &evs), Some(Err(RError::FrameError)));
}

#[test]
fn line_read_times_out_after_empty_attempts_in_a_row() {
    let mut buf = [0u8; 8];
    let nd = Err(RError::NoData);
    assert_eq!(run_line_timeout(&mut buf, 3, &[nd, nd, nd, Ok(b'\n')]), Some(Err(RError::Timeout)));
    // a received byte resets the count
    assert_eq!(run_line_timeout(&mut buf, 3, &[nd, nd, Ok(b'a'), nd, nd, Ok(b'\n')]), Some(Ok(1)));
    assert_eq!(buf[0], b'a');
    // the wait for the byte after a carriage return counts too
    assert_eq!(run_line_timeout(&mut buf, 2, &[Ok(b'x'), Ok(b'\r'), nd, nd]), Some(Err(RError::Timeout)));
    assert_eq!(run_line_timeout(&mut buf, 2, &[Ok(b'x'), Ok(b'\r'), nd, Ok(b'\n')]), Some(Ok(1)));
    assert_eq!(run_line_timeout(&mut buf, 2, &[Ok(b'x'), nd, nd, Ok(b'\r')]), Some(Err(RError::Timeout)));
    assert_eq!(run_line_timeout(&mut buf, 0, &[Ok(b'\n')]), Some(Err(RError::Timeout)));
    let mut empty: [u8; 0] = [];
    assert_eq!(run_line_timeout(&mut empty, 0, &[]), Some(Err(RError::BufferFull)));
}

#[test]
fn single_byte_reads() {
    assert!(matches!(read_byte(Ok(7)), ReadStep::Done(Ok(7))));
    assert!(matches!(read_byte(Err(RError::NoData)), ReadStep::Again));
    assert!(matches!(read_byte(Err(RError::ParityError)), ReadStep::Done(Err(RError::ParityError))));
    assert!(matches!(read_byte_timeout_begin(0), ReadStep::Done(Err(RError::Timeout))));
    assert!(matches!(read_byte_timeout_begin(2), ReadStep::Again));
    assert!(matches!(read_byte_timeout(0, 2, Err(RError::NoData)), ReadStep::Again));
    assert!(matches!(read_byte_timeout(1, 2, Err(RError::NoData)), ReadStep::Done(Err(RError::Timeout))));
    assert!(matches!(read_byte_timeout(1, 2, Ok(9)), ReadStep::Done(Ok(9))));
    assert!(matches!(read_byte_timeout(0, 2, Err(RError::Other)), ReadStep::Done(Err(RError::Other))));
    assert_eq!(empty_rx(), Err(RError::NoData));
    assert_eq!(empty_tx(1), Ok(()));
}

#[test]
fn buffer_reads_stop_at_no_data_or_fill_the_buffer() {
    let mut buf = [0u8; 4];
    assert!(matches!(read_bytes_begin(&buf), ReadStep::Again));
    assert!(matches!(read_bytes(0, &mut buf, Ok(1)), ReadStep::Again));
    assert!(matches!(read_bytes(1, &mut buf, Ok(2)), ReadStep::Again));
    assert!(matches!(read_bytes(2, &mut buf, Err(RError::NoData)), ReadStep::Done(Ok(2))));
    assert_eq!(buf, [1, 2, 0, 0]);
    assert!(matches!(read_bytes(3, &mut buf, Ok(4)), ReadStep::Done(Ok(4))));
    assert!(matches!(read_bytes(0, &mut buf, Err(RError::Overrun)), ReadStep::Done(Err(RError::Overrun))));
    let empty: [u8; 0] = [];
    assert!(matches!(read_bytes_begin(&empty), ReadStep::Done(Ok(0))));
    let mut buf = [0u8; 2];
    assert!(matches!(read_bytes_blocking(0, &mut buf, Err(RError::NoData)), ReadStep::Again));
    assert!(matches!(read_bytes_blocking(0, &mut buf, Ok(5)), ReadStep::Again));
    assert!(matches!(read_bytes_blocking(1, &mut buf, Ok(6)), ReadStep::Done(Ok(2))));
    assert_eq!(buf, [5, 6]);
    assert!(matches!(read_bytes_blocking(1, &mut buf, Err(RError::Timeout)), ReadStep::Done(Err(RError::Timeout))));
}

/// Feeds a transmitter that asks to retry every other byte; returns what it accepted.
fn run_write(bytes: &[u8]) -> Vec<u8> {
    let mut sent = Vec::new();
    let mut pos = 0usize;
    let mut step = write_bytes_begin(bytes);
    let mut busy = true;
    while let WriteStep::Send(b) = step {
        let ev = if busy { Err(TError::ReTry) } else { sent.push(b); Ok(()) };
        busy = !busy;
        step = write_bytes(&mut pos, bytes, ev);
    }
    sent
}

#[test]
fn writes_retry_a_busy_transmitter() {
    assert_eq!(run_write(b"abc"), b"abc".to_vec());
    assert_eq!(run_write(b""), Vec::<u8>::new());
    // a failed byte is skipped
    let mut pos = 0usize;
    assert_eq!(write_bytes(&mut pos, b"xy", Err(TError::Other)), WriteStep::Send(b'y'));
    assert_eq!(pos, 1);
    assert_eq!(write_bytes(&mut pos, b"xy", Ok(())), WriteStep::Done);
    assert_eq!(pos, 2);
}

#[test]
fn strings_are_written_as_their_bytes() {
    assert_eq!(write_str_begin("é"), WriteStep::Send(0xc3));
    let mut pos = 0usize;
    assert_eq!(write_str(&mut pos, "é", Ok(())), WriteStep::Send(0xa9));
    assert_eq!(write_str(&mut pos, "é", Err(TError::ReTry)), WriteStep::Send(0xa9));
    assert_eq!(write_str(&mut pos, "é", Ok(())), WriteStep::Done);
    assert_eq!(write_str_begin(""), WriteStep::Done);
}

#[test]
fn console_adds_carriage_return_before_a_bare_newline() {
    let pieces = console::write_bytes(b"hi\n");
    assert_eq!(pieces, vec![b"h".to_vec(), b"\r\n".to_vec(), b"hi\n".to_vec()]);
    let pieces = console::write_bytes(b"hi\r\n");
    assert_eq!(pieces, vec![b"hi\r\n".to_vec()]);
    let pieces = console::write_bytes(b"plain");
    assert_eq!(pieces, vec![b"plain".to_vec()]);
    let pieces = console::write_bytes(b"");
    assert_eq!(pieces, vec![Vec::<u8>::new()]);
    // a single byte, a newline too, is sent as it is
    assert_eq!(console::write_bytes(b"\n"), vec![b"\n".to_vec()]);
    assert_eq!(console::write_bytes(b"x"), vec![b"x".to_vec()]);
}

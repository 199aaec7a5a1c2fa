use vstd::seq::Seq;
use xx_core::coroutines::Context;
use xx_core::error::Error;
use xx_core::impls::ByteCursor;
use xx_core::io::{Read, Stream};

/// Source that serves its data in scripted chunk sizes, one per read call,
/// and reports end-of-stream once the script runs out. It can request
/// cancellation on the context, or fail, at a scripted call.
struct ChunkReader {
    data: Vec<u8>,
    pos: usize,
    chunks: Vec<usize>,
    next: usize,
    calls: usize,
    interrupt_on_call: Option<usize>,
    fail_on_call: Option<(usize, Error)>,
}

impl ChunkReader {
    fn new(data: Vec<u8>, chunks: Vec<usize>) -> ChunkReader {
        ChunkReader {
            data,
            pos: 0,
            chunks,
            next: 0,
            calls: 0,
            interrupt_on_call: None,
            fail_on_call: None,
        }
    }
}

impl Read for ChunkReader {
    fn remaining(&self) -> Seq<u8> {
        unreachable!()
    }

    fn read(&mut self, buf: &mut Vec<u8>, start: usize, cx: &mut Context) -> Result<usize, Error> {
        self.calls += 1;
        if let Some(call) = self.interrupt_on_call {
            if call == self.calls {
                cx.request_interrupt();
            }
        }
        if let Some((call, err)) = self.fail_on_call {
            if call == self.calls {
                return Err(err);
            }
        }
        let cap = if self.next < self.chunks.len() {
            self.chunks[self.next]
        } else {
            0
        };
        self.next += 1;
        let avail = self.data.len() - self.pos;
        let space = buf.len() - start;
        let n = cap.min(avail).min(space);
        for i in 0..n {
            buf[start + i] = self.data[self.pos + i];
        }
        self.pos += n;
        Ok(n)
    }
}

fn bytes(n: usize) -> Vec<u8> {
    (0..n).map(|i| (i % 251) as u8).collect()
}

#[test]
fn read_exact_accumulates_until_eof() {
    // The source yields reads of 3, 4, then 0 bytes into a 10-byte buffer:
    // the loop stops at the end-of-stream signal and reports 7 bytes.
    let data = bytes(7);
    let mut s = Stream::new(ChunkReader::new(data.clone(), vec![3, 4, 0]));
    let mut cx = Context::new();
    let mut buf = vec![0u8; 10];
    let r = s.read_exact(&mut buf, &mut cx);
    assert_eq!(r, Ok(7));
    assert_eq!(&buf[..7], &data[..]);
    assert_eq!(&buf[7..], &[0u8; 3]);
}

#[test]
fn eof_stops_further_read_attempts() {
    let mut s = Stream::new(ChunkReader::new(bytes(7), vec![3, 4, 0]));
    let mut cx = Context::new();
    let mut buf = vec![0u8; 10];
    let r = s.read_exact(&mut buf, &mut cx);
    assert_eq!(r, Ok(7));
    // Three calls happened: 3, 4, and the end-of-stream probe. None after.
    assert_eq!(s.inner.calls, 3);
}

#[test]
fn interrupted_before_any_bytes_fails() {
    let mut s = Stream::new(ByteCursor::new(bytes(5)));
    let mut cx = Context::new();
    cx.request_interrupt();
    let mut buf = vec![7u8; 4];
    let r = s.read_exact(&mut buf, &mut cx);
    assert_eq!(r, Err(Error::Interrupted));
    // Nothing was transferred and nothing was consumed.
    assert_eq!(buf, vec![7u8; 4]);
    assert_eq!(s.inner.pos, 0);
}

#[test]
fn interrupt_with_progress_yields_partial_count() {
    // Cancellation arrives during the first read: the bytes it transferred
    // are kept and reported, not discarded behind an error.
    let data = bytes(10);
    let mut reader = ChunkReader::new(data.clone(), vec![4, 5]);
    reader.interrupt_on_call = Some(1);
    let mut s = Stream::new(reader);
    let mut cx = Context::new();
    let mut buf = vec![0u8; 10];
    let r = s.read_exact(&mut buf, &mut cx);
    assert_eq!(r, Ok(4));
    assert_eq!(&buf[..4], &data[..4]);
    assert_eq!(s.inner.calls, 1);
}

#[test]
fn interrupted_error_after_progress_is_partial_success() {
    let data = bytes(10);
    let mut reader = ChunkReader::new(data.clone(), vec![3, 9]);
    reader.interrupt_on_call = Some(2);
    reader.fail_on_call = Some((2, Error::Interrupted));
    let mut s = Stream::new(reader);
    let mut cx = Context::new();
    let mut buf = vec![0u8; 10];
    let r = s.read_exact(&mut buf, &mut cx);
    assert_eq!(r, Ok(3));
    assert_eq!(&buf[..3], &data[..3]);
}

#[test]
fn os_error_propagates_unchanged() {
    let mut reader = ChunkReader::new(bytes(10), vec![3, 9]);
    reader.fail_on_call = Some((2, Error::Os(5)));
    let mut s = Stream::new(reader);
    let mut cx = Context::new();
    let mut buf = vec![0u8; 10];
    let r = s.read_exact(&mut buf, &mut cx);
    assert_eq!(r, Err(Error::Os(5)));
}

#[test]
fn read_exact_fills_whole_buffer() {
    let data = bytes(16);
    let mut s = Stream::new(ByteCursor::new(data.clone()));
    let mut cx = Context::new();
    let mut buf = vec![0u8; 16];
    let r = s.read_exact(&mut buf, &mut cx);
    assert_eq!(r, Ok(16));
    assert_eq!(buf, data);
}

#[test]
fn read_exact_with_empty_buffer_is_ok_zero() {
    let mut s = Stream::new(ByteCursor::new(bytes(3)));
    let mut cx = Context::new();
    let mut buf: Vec<u8> = Vec::new();
    assert_eq!(s.read_exact(&mut buf, &mut cx), Ok(0));
}

#[test]
fn read_exact_at_eof_is_ok_zero() {
    let mut s = Stream::new(ByteCursor::new(Vec::new()));
    let mut cx = Context::new();
    let mut buf = vec![0u8; 8];
    assert_eq!(s.read_exact(&mut buf, &mut cx), Ok(0));
}

#[test]
fn read_to_end_collects_everything() {
    // Longer than the internal probe, so growth happens several times.
    let data = bytes(100);
    let mut s = Stream::new(ByteCursor::new(data.clone()));
    let mut cx = Context::new();
    let mut out: Vec<u8> = Vec::new();
    let r = s.read_to_end(&mut out, &mut cx);
    assert_eq!(r, Ok(100));
    assert_eq!(out, data);
    // The source is exhausted: a second call appends nothing, without error.
    assert_eq!(s.read_to_end(&mut out, &mut cx), Ok(0));
    assert_eq!(out, data);
}

#[test]
fn read_to_end_appends_after_existing_bytes() {
    let mut s = Stream::new(ByteCursor::new(vec![1, 2, 3]));
    let mut cx = Context::new();
    let mut out: Vec<u8> = vec![9, 9];
    let r = s.read_to_end(&mut out, &mut cx);
    assert_eq!(r, Ok(3));
    assert_eq!(out, vec![9, 9, 1, 2, 3]);
}

#[test]
fn read_to_end_interrupted_before_start_fails() {
    let mut s = Stream::new(ByteCursor::new(bytes(4)));
    let mut cx = Context::new();
    cx.request_interrupt();
    let mut out: Vec<u8> = Vec::new();
    assert_eq!(s.read_to_end(&mut out, &mut cx), Err(Error::Interrupted));
    assert!(out.is_empty());
}

#[test]
fn read_to_end_keeps_bytes_on_interrupt() {
    let data = bytes(50);
    let mut reader = ChunkReader::new(data.clone(), vec![20, 30]);
    reader.interrupt_on_call = Some(1);
    let mut s = Stream::new(reader);
    let mut cx = Context::new();
    let mut out: Vec<u8> = Vec::new();
    let r = s.read_to_end(&mut out, &mut cx);
    assert_eq!(r, Ok(20));
    assert_eq!(&out[..], &data[..20]);
}

#[test]
fn single_shot_read_reports_chunk() {
    let data = bytes(9);
    let mut s = Stream::new(ByteCursor::new(data.clone()));
    let mut cx = Context::new();
    let mut buf = vec![0u8; 4];
    assert_eq!(s.read(&mut buf, 1, &mut cx), Ok(3));
    assert_eq!(&buf[1..4], &data[..3]);
    assert_eq!(buf[0], 0);
}

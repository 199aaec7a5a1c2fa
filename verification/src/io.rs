use vstd::prelude::*;

use crate::coroutines::Context;
use crate::error::Error;

verus! {

/// A position to seek to, relative to the start, the end, or the current
/// position of a stream.
#[derive(Clone, Copy, Debug, PartialEq, Eq, Structural)]
pub enum SeekFrom {
    Start(u64),
    End(i64),
    Current(i64),
}

/// Single-shot read capability of a resource.
///
/// The resource is modelled by the sequence of bytes it has yet to yield; a
/// read hands over a prefix of it. Reading zero bytes into a non-empty range
/// strictly means end-of-stream, never "try again".
pub trait Read {
    /// The bytes this resource has yet to yield, in order.
    spec fn remaining(&self) -> Seq<u8>;

    /// Read into `buf[start..]`, returning the number of bytes read.
    ///
    /// The transferred bytes are the next bytes of the resource; everything
    /// outside the filled range is left as it was. A reported interrupt
    /// transfers nothing, and implies the context observed cancellation.
    fn read(&mut self, buf: &mut Vec<u8>, start: usize, cx: &mut Context) -> (r: Result<
        usize,
        Error,
    >)
        requires
            start <= old(buf)@.len(),
        ensures
            final(buf)@.len() == old(buf)@.len(),
            old(cx).interrupted() ==> final(cx).interrupted(),
            match r {
                Ok(n) => {
                    &&& start + n <= old(buf)@.len()
                    &&& n <= old(self).remaining().len()
                    &&& final(buf)@ == old(buf)@.take(start as int) + old(self).remaining().take(
                        n as int,
                    ) + old(buf)@.skip((start + n) as int)
                    &&& final(self).remaining() == old(self).remaining().skip(n as int)
                    &&& (n == 0 && start < old(buf)@.len() ==> old(self).remaining().len() == 0)
                },
                Err(e) => {
                    &&& final(buf)@ == old(buf)@
                    &&& final(self).remaining() == old(self).remaining()
                    &&& (e == Error::Interrupted ==> final(cx).interrupted())
                },
            },
    ;
}

/// Single-shot write capability of a resource.
///
/// The resource is modelled by the bytes it has accepted so far. Writing zero
/// bytes from a non-empty range strictly means no forward progress is
/// possible; retrying is pointless, but it is not an error.
pub trait Write {
    /// The bytes this sink has accepted so far, in order.
    spec fn written(&self) -> Seq<u8>;

    /// Whether the sink can accept no further bytes.
    spec fn wont_accept(&self) -> bool;

    /// Write from `buf[start..]`, returning the number of bytes accepted.
    ///
    /// The accepted bytes extend the sink in order. A reported interrupt
    /// accepts nothing, and implies the context observed cancellation.
    fn write(&mut self, buf: &Vec<u8>, start: usize, cx: &mut Context) -> (r: Result<usize, Error>)
        requires
            start <= buf@.len(),
        ensures
            old(cx).interrupted() ==> final(cx).interrupted(),
            match r {
                Ok(n) => {
                    &&& start + n <= buf@.len()
                    &&& final(self).written() == old(self).written() + buf@.subrange(
                        start as int,
                        (start + n) as int,
                    )
                    &&& (n == 0 && start < buf@.len() ==> final(self).wont_accept())
                },
                Err(e) => {
                    &&& final(self).written() == old(self).written()
                    &&& (e == Error::Interrupted ==> final(cx).interrupted())
                },
            },
    ;

    /// Flush buffered data towards the resource; the accepted bytes are
    /// unchanged.
    fn flush(&mut self, cx: &mut Context) -> (r: Result<(), Error>)
        ensures
            old(cx).interrupted() ==> final(cx).interrupted(),
            final(self).written() == old(self).written(),
            r matches Err(e) ==> (e == Error::Interrupted ==> final(cx).interrupted()),
    ;
}

/// Positioning capability of a resource.
///
/// The resource is modelled by its total size and the current offset; a seek
/// moves the offset and reports the position it landed on. A seek that cannot
/// land on the requested position fails and moves nothing.
pub trait Seek {
    /// Total length of the stream, in bytes.
    spec fn stream_size(&self) -> int;

    /// Current offset from the start of the stream, in bytes.
    spec fn stream_pos(&self) -> int;

    /// Whether this resource declares a cheap way to learn its length;
    /// false unless an implementation overrides it.
    open spec fn stream_len_is_fast(&self) -> bool {
        false
    }

    /// Whether this resource declares a cheap way to learn its position;
    /// false unless an implementation overrides it.
    open spec fn stream_position_is_fast(&self) -> bool {
        false
    }

    /// Move the current offset to the requested position and return it.
    fn seek(&mut self, from: SeekFrom, cx: &mut Context) -> (r: Result<u64, Error>)
        ensures
            old(cx).interrupted() ==> final(cx).interrupted(),
            final(self).stream_size() == old(self).stream_size(),
            match r {
                Ok(p) => {
                    &&& final(self).stream_pos() == p as int
                    &&& match from {
                        SeekFrom::Start(off) => p == off,
                        SeekFrom::End(delta) => p as int == old(self).stream_size() + delta as int,
                        SeekFrom::Current(delta) => p as int == old(self).stream_pos()
                            + delta as int,
                    }
                },
                Err(e) => {
                    &&& final(self).stream_pos() == old(self).stream_pos()
                    &&& (e == Error::Interrupted ==> final(cx).interrupted())
                },
            },
    ;

    /// Whether the stream length is known without an expensive operation,
    /// exactly as `stream_len_is_fast` declares.
    fn stream_len_fast(&self) -> (r: bool)
        ensures
            r == self.stream_len_is_fast(),
    ;

    /// Length of the stream in bytes.
    ///
    /// The default algorithm learns the current position, seeks to the end to
    /// learn the length, and seeks back only when the original position
    /// differed from the length, restoring the position exactly. On failure
    /// the offset is either untouched or parked at the end.
    fn stream_len(&mut self, cx: &mut Context) -> (r: Result<u64, Error>)
        ensures
            old(cx).interrupted() ==> final(cx).interrupted(),
            final(self).stream_size() == old(self).stream_size(),
            match r {
                Ok(n) => {
                    &&& n as int == old(self).stream_size()
                    &&& final(self).stream_pos() == old(self).stream_pos()
                },
                Err(e) => {
                    &&& (final(self).stream_pos() == old(self).stream_pos()
                        || final(self).stream_pos() == old(self).stream_size())
                    &&& (e == Error::Interrupted ==> final(cx).interrupted())
                },
            },
    {
        let old_pos = match self.stream_position(cx) {
            Ok(p) => p,
            Err(e) => {
                return Err(e);
            },
        };
        let len = match self.seek(SeekFrom::End(0), cx) {
            Ok(p) => p,
            Err(e) => {
                return Err(e);
            },
        };

        if old_pos != len {
            match self.seek(SeekFrom::Start(old_pos), cx) {
                Ok(_) => (),
                Err(e) => {
                    return Err(e);
                },
            }
        }

        Ok(len)
    }

    /// Whether the stream position is known without an expensive operation,
    /// exactly as `stream_position_is_fast` declares.
    fn stream_position_fast(&self) -> (r: bool)
        ensures
            r == self.stream_position_is_fast(),
    ;

    /// Current position in the stream, in bytes; by default one seek with a
    /// zero relative offset.
    fn stream_position(&mut self, cx: &mut Context) -> (r: Result<u64, Error>)
        ensures
            old(cx).interrupted() ==> final(cx).interrupted(),
            final(self).stream_size() == old(self).stream_size(),
            final(self).stream_pos() == old(self).stream_pos(),
            match r {
                Ok(p) => p as int == old(self).stream_pos(),
                Err(e) => e == Error::Interrupted ==> final(cx).interrupted(),
            },
    {
        self.seek(SeekFrom::Current(0), cx)
    }
}

/// Closing capability of a resource; consuming it, no independent closed
/// state is tracked.
pub trait Close {
    /// Consume the resource and release what it holds.
    fn close(self, cx: &mut Context) -> (r: Result<(), Error>)
        ensures
            old(cx).interrupted() ==> final(cx).interrupted(),
            r matches Err(e) ==> (e == Error::Interrupted ==> final(cx).interrupted()),
    ;
}

/// Thin wrapper owning a resource, offering interrupt-safe composite
/// operations over the resource's single-shot primitives.
pub struct Stream<Inner> {
    pub inner: Inner,
}

impl<Inner> Stream<Inner> {
    pub fn new(inner: Inner) -> (r: Stream<Inner>)
        ensures
            r.inner == inner,
    {
        Stream { inner }
    }

    pub fn into_inner(self) -> (r: Inner)
        ensures
            r == self.inner,
    {
        self.inner
    }
}

impl<Inner: Read> Stream<Inner> {
    /// Single-shot read into `buf[start..]`, delegating to the resource.
    pub fn read(&mut self, buf: &mut Vec<u8>, start: usize, cx: &mut Context) -> (r: Result<
        usize,
        Error,
    >)
        requires
            start <= old(buf)@.len(),
        ensures
            final(buf)@.len() == old(buf)@.len(),
            old(cx).interrupted() ==> final(cx).interrupted(),
            match r {
                Ok(n) => {
                    &&& start + n <= old(buf)@.len()
                    &&& n <= old(self).inner.remaining().len()
                    &&& final(buf)@ == old(buf)@.take(start as int)
                        + old(self).inner.remaining().take(n as int)
                        + old(buf)@.skip((start + n) as int)
                    &&& final(self).inner.remaining() == old(self).inner.remaining().skip(n as int)
                    &&& (n == 0 && start < old(buf)@.len() ==> old(self).inner.remaining().len()
                        == 0)
                },
                Err(e) => {
                    &&& final(buf)@ == old(buf)@
                    &&& final(self).inner.remaining() == old(self).inner.remaining()
                    &&& (e == Error::Interrupted ==> final(cx).interrupted())
                },
            },
    {
        self.inner.read(buf, start, cx)
    }

    /// Read until the buffer is filled, an I/O error, an interrupt, or an
    /// end-of-stream.
    ///
    /// The transferred bytes land at the front of the buffer and are never
    /// discarded: a short count reports exactly what was transferred before
    /// the loop stopped. An interrupt surfaces as a failure only when nothing
    /// was transferred; with partial progress it yields the partial count.
    pub fn read_exact(&mut self, buf: &mut Vec<u8>, cx: &mut Context) -> (r: Result<usize, Error>)
        ensures
            final(buf)@.len() == old(buf)@.len(),
            old(cx).interrupted() ==> final(cx).interrupted(),
            old(cx).interrupted() ==> r == Err::<usize, Error>(Error::Interrupted)
                && final(buf)@ == old(buf)@
                && final(self).inner.remaining() == old(self).inner.remaining(),
            old(buf)@.len() == 0 && !old(cx).interrupted() ==> r == Ok::<usize, Error>(0),
            match r {
                Ok(n) => {
                    &&& n <= old(buf)@.len()
                    &&& n <= old(self).inner.remaining().len()
                    &&& final(buf)@ == old(self).inner.remaining().take(n as int)
                        + old(buf)@.skip(n as int)
                    &&& final(self).inner.remaining() == old(self).inner.remaining().skip(n as int)
                    &&& (n == old(buf)@.len() || final(self).inner.remaining().len() == 0 || (n > 0
                        && final(cx).interrupted()))
                    &&& (n == 0 ==> !final(cx).interrupted())
                },
                Err(e) => {
                    &&& (e == Error::Interrupted ==> final(cx).interrupted()
                        && final(buf)@ == old(buf)@
                        && final(self).inner.remaining() == old(self).inner.remaining())
                    &&& (e != Error::Interrupted ==> exists|k: int|
                        0 <= k <= old(self).inner.remaining().len() && k <= old(buf)@.len()
                            && final(buf)@ == old(self).inner.remaining().take(k)
                            + old(buf)@.skip(k)
                            && final(self).inner.remaining() == old(self).inner.remaining().skip(k))
                },
            },
    {
        let ghost source = self.inner.remaining();
        let ghost buf0 = old(buf)@;
        let ghost was_interrupted = cx.interrupted();
        let mut nread: usize = 0;

        loop
            invariant
                source == old(self).inner.remaining(),
                buf0 == old(buf)@,
                was_interrupted == old(cx).interrupted(),
                nread <= buf@.len(),
                nread <= source.len(),
                buf@.len() == buf0.len(),
                buf@ == source.take(nread as int) + buf0.skip(nread as int),
                self.inner.remaining() == source.skip(nread as int),
                was_interrupted ==> cx.interrupted(),
                nread > 0 ==> !was_interrupted,
                buf0.len() == 0 ==> cx.interrupted() == was_interrupted,
            ensures
                source == old(self).inner.remaining(),
                buf0 == old(buf)@,
                was_interrupted == old(cx).interrupted(),
                nread <= buf@.len(),
                nread <= source.len(),
                buf@.len() == buf0.len(),
                buf@ == source.take(nread as int) + buf0.skip(nread as int),
                self.inner.remaining() == source.skip(nread as int),
                was_interrupted ==> cx.interrupted(),
                nread > 0 ==> !was_interrupted,
                buf0.len() == 0 ==> cx.interrupted() == was_interrupted,
                nread == buf@.len() || self.inner.remaining().len() == 0 || cx.interrupted(),
            decreases source.len() - nread,
        {
            if nread >= buf.len() {
                break ;
            }
            if cx.is_interrupted() {
                break ;
            }
            match self.inner.read(buf, nread, cx) {
                Ok(n) => {
                    if n == 0 {
                        break ;
                    }
                    proof {
                        lemma_take_skip_chain(source, buf0, nread as int, n as int);
                    }
                    nread = nread + n;
                },
                Err(e) => {
                    if e.is_interrupted() {
                        break ;
                    }
                    proof {
                        let k = nread as int;
                        assert(buf@ == source.take(k) + buf0.skip(k));
                    }
                    return Err(e);
                },
            }
        }

        if nread == 0 {
            match cx.check_interrupt() {
                Ok(_) => (),
                Err(e) => {
                    proof {
                        assert(buf@ =~= buf0);
                        assert(self.inner.remaining() =~= source);
                    }
                    return Err(e);
                },
            }
        }

        Ok(nread)
    }

    /// Read until an end-of-stream, an I/O error, or an interrupt, appending
    /// everything read to `buf` and returning how many bytes were appended.
    ///
    /// Bytes are fetched through a small fixed-size probe and appended, so
    /// nothing already transferred is ever discarded. An interrupt surfaces
    /// as a failure only when nothing was appended by this call.
    pub fn read_to_end(&mut self, buf: &mut Vec<u8>, cx: &mut Context) -> (r: Result<usize, Error>)
        ensures
            final(buf)@.len() >= old(buf)@.len(),
            old(cx).interrupted() ==> final(cx).interrupted(),
            old(cx).interrupted() ==> r == Err::<usize, Error>(Error::Interrupted)
                && final(buf)@ == old(buf)@
                && final(self).inner.remaining() == old(self).inner.remaining(),
            match r {
                Ok(n) => {
                    &&& n == final(buf)@.len() - old(buf)@.len()
                    &&& n <= old(self).inner.remaining().len()
                    &&& final(buf)@ == old(buf)@ + old(self).inner.remaining().take(n as int)
                    &&& final(self).inner.remaining() == old(self).inner.remaining().skip(n as int)
                    &&& (final(self).inner.remaining().len() == 0 || (n > 0
                        && final(cx).interrupted()))
                    &&& (n == 0 ==> !final(cx).interrupted())
                },
                Err(e) => {
                    &&& (e == Error::Interrupted ==> final(cx).interrupted()
                        && final(buf)@ == old(buf)@
                        && final(self).inner.remaining() == old(self).inner.remaining())
                    &&& (e != Error::Interrupted ==> exists|k: int|
                        0 <= k <= old(self).inner.remaining().len()
                            && final(buf)@ == old(buf)@ + old(self).inner.remaining().take(k)
                            && final(self).inner.remaining() == old(self).inner.remaining().skip(k))
                },
            },
    {
        let start_len = buf.len();
        let ghost source = self.inner.remaining();
        let ghost buf0 = old(buf)@;
        let ghost was_interrupted = cx.interrupted();

        loop
            invariant
                source == old(self).inner.remaining(),
                buf0 == old(buf)@,
                was_interrupted == old(cx).interrupted(),
                start_len == buf0.len(),
                buf0.len() <= buf@.len(),
                buf@.len() - buf0.len() <= source.len(),
                buf@ == buf0 + source.take(buf@.len() - buf0.len()),
                self.inner.remaining() == source.skip(buf@.len() - buf0.len()),
                was_interrupted ==> cx.interrupted(),
                buf@.len() > buf0.len() ==> !was_interrupted,
            ensures
                source == old(self).inner.remaining(),
                buf0 == old(buf)@,
                was_interrupted == old(cx).interrupted(),
                start_len == buf0.len(),
                buf0.len() <= buf@.len(),
                buf@.len() - buf0.len() <= source.len(),
                buf@ == buf0 + source.take(buf@.len() - buf0.len()),
                self.inner.remaining() == source.skip(buf@.len() - buf0.len()),
                was_interrupted ==> cx.interrupted(),
                buf@.len() > buf0.len() ==> !was_interrupted,
                self.inner.remaining().len() == 0 || cx.interrupted(),
            decreases source.len() - (buf@.len() - buf0.len()),
        {
            if cx.is_interrupted() {
                break ;
            }

            let ghost done = buf@.len() - buf0.len();
            let mut probe: Vec<u8> = vec![0u8; 32];

            match self.inner.read(&mut probe, 0, cx) {
                Ok(n) => {
                    if n == 0 {
                        break ;
                    }
                    proof {
                        lemma_take_extend(source, done, n as int);
                    }
                    let ghost pre = buf@;
                    let mut i: usize = 0;
                    while i < n
                        invariant
                            i <= n,
                            n <= probe@.len(),
                            buf@ == pre + probe@.take(i as int),
                        decreases n - i,
                    {
                        let byte = probe[i];
                        buf.push(byte);
                        proof {
                            assert(buf@ =~= pre + probe@.take(i + 1));
                        }
                        i = i + 1;
                    }
                    proof {
                        assert(probe@.take(n as int) =~= source.skip(done).take(n as int));
                        assert(buf@ =~= buf0 + source.take(done + n));
                    }
                },
                Err(e) => {
                    if e.is_interrupted() {
                        break ;
                    }
                    proof {
                        let k = buf@.len() - buf0.len();
                        assert(buf@ == buf0 + source.take(k));
                    }
                    return Err(e);
                },
            }
        }

        let total = buf.len() - start_len;

        if total == 0 {
            match cx.check_interrupt() {
                Ok(_) => (),
                Err(e) => {
                    proof {
                        assert(buf@ =~= buf0);
                        assert(self.inner.remaining() =~= source);
                    }
                    return Err(e);
                },
            }
        }

        Ok(total)
    }
}

impl<Inner: Write> Stream<Inner> {
    /// Single-shot write from `buf[start..]`, delegating to the resource.
    pub fn write(&mut self, buf: &Vec<u8>, start: usize, cx: &mut Context) -> (r: Result<
        usize,
        Error,
    >)
        requires
            start <= buf@.len(),
        ensures
            old(cx).interrupted() ==> final(cx).interrupted(),
            match r {
                Ok(n) => {
                    &&& start + n <= buf@.len()
                    &&& final(self).inner.written() == old(self).inner.written() + buf@.subrange(
                        start as int,
                        (start + n) as int,
                    )
                    &&& (n == 0 && start < buf@.len() ==> final(self).inner.wont_accept())
                },
                Err(e) => {
                    &&& final(self).inner.written() == old(self).inner.written()
                    &&& (e == Error::Interrupted ==> final(cx).interrupted())
                },
            },
    {
        self.inner.write(buf, start, cx)
    }

    /// Write until the whole buffer is accepted, an I/O error, an interrupt,
    /// or the sink makes no forward progress.
    ///
    /// A single-shot write accepting zero bytes stops the loop without an
    /// error; an interrupt surfaces as a failure only when nothing was
    /// accepted. The accepted bytes are always exactly a prefix of `buf`.
    pub fn write_exact(&mut self, buf: &Vec<u8>, cx: &mut Context) -> (r: Result<usize, Error>)
        ensures
            old(cx).interrupted() ==> final(cx).interrupted(),
            buf@.len() == 0 && !old(cx).interrupted() ==> r == Ok::<usize, Error>(0),
            buf@.len() == 0 && old(cx).interrupted() ==> r == Err::<usize, Error>(
                Error::Interrupted,
            ) && final(self).inner.written() == old(self).inner.written(),
            match r {
                Ok(n) => {
                    &&& n <= buf@.len()
                    &&& final(self).inner.written() == old(self).inner.written() + buf@.take(
                        n as int,
                    )
                    &&& (n == buf@.len() || final(self).inner.wont_accept() || (n > 0
                        && final(cx).interrupted()))
                    &&& (n == 0 ==> !final(cx).interrupted())
                },
                Err(e) => {
                    &&& (e == Error::Interrupted ==> final(cx).interrupted()
                        && final(self).inner.written() == old(self).inner.written())
                    &&& (e != Error::Interrupted ==> exists|k: int|
                        0 <= k <= buf@.len() && final(self).inner.written() == old(
                            self,
                        ).inner.written() + buf@.take(k))
                },
            },
    {
        let ghost sink0 = self.inner.written();
        let ghost was_interrupted = cx.interrupted();
        let mut wrote: usize = 0;

        loop
            invariant
                sink0 == old(self).inner.written(),
                was_interrupted == old(cx).interrupted(),
                wrote <= buf@.len(),
                self.inner.written() == sink0 + buf@.take(wrote as int),
                was_interrupted ==> cx.interrupted(),
                buf@.len() == 0 ==> cx.interrupted() == was_interrupted,
            ensures
                sink0 == old(self).inner.written(),
                was_interrupted == old(cx).interrupted(),
                wrote <= buf@.len(),
                self.inner.written() == sink0 + buf@.take(wrote as int),
                was_interrupted ==> cx.interrupted(),
                buf@.len() == 0 ==> cx.interrupted() == was_interrupted,
                wrote == buf@.len() || self.inner.wont_accept() || cx.interrupted(),
            decreases buf@.len() - wrote,
        {
            if wrote >= buf.len() {
                break ;
            }
            match self.inner.write(buf, wrote, cx) {
                Ok(n) => {
                    if n == 0 {
                        break ;
                    }
                    proof {
                        lemma_take_extend(buf@, wrote as int, n as int);
                        assert(buf@.subrange(wrote as int, wrote + n) =~= buf@.skip(
                            wrote as int,
                        ).take(n as int));
                    }
                    wrote = wrote + n;
                },
                Err(e) => {
                    if e.is_interrupted() {
                        break ;
                    }
                    proof {
                        let k = wrote as int;
                        assert(self.inner.written() == sink0 + buf@.take(k));
                    }
                    return Err(e);
                },
            }
        }

        if wrote == 0 {
            match cx.check_interrupt() {
                Ok(_) => (),
                Err(e) => {
                    proof {
                        assert(self.inner.written() =~= sink0);
                    }
                    return Err(e);
                },
            }
        }

        Ok(wrote)
    }

    /// Flush buffered data towards the resource.
    pub fn flush(&mut self, cx: &mut Context) -> (r: Result<(), Error>)
        ensures
            old(cx).interrupted() ==> final(cx).interrupted(),
            final(self).inner.written() == old(self).inner.written(),
            r matches Err(e) ==> (e == Error::Interrupted ==> final(cx).interrupted()),
    {
        self.inner.flush(cx)
    }
}

impl<Inner: Seek> Stream<Inner> {
    /// Move the resource's offset to the requested position and return it.
    pub fn seek(&mut self, from: SeekFrom, cx: &mut Context) -> (r: Result<u64, Error>)
        ensures
            old(cx).interrupted() ==> final(cx).interrupted(),
            final(self).inner.stream_size() == old(self).inner.stream_size(),
            match r {
                Ok(p) => {
                    &&& final(self).inner.stream_pos() == p as int
                    &&& match from {
                        SeekFrom::Start(off) => p == off,
                        SeekFrom::End(delta) => p as int == old(self).inner.stream_size()
                            + delta as int,
                        SeekFrom::Current(delta) => p as int == old(self).inner.stream_pos()
                            + delta as int,
                    }
                },
                Err(e) => {
                    &&& final(self).inner.stream_pos() == old(self).inner.stream_pos()
                    &&& (e == Error::Interrupted ==> final(cx).interrupted())
                },
            },
    {
        self.inner.seek(from, cx)
    }

    /// Seek back to the start of the stream.
    pub fn rewind(&mut self, cx: &mut Context) -> (r: Result<(), Error>)
        ensures
            old(cx).interrupted() ==> final(cx).interrupted(),
            final(self).inner.stream_size() == old(self).inner.stream_size(),
            match r {
                Ok(u) => final(self).inner.stream_pos() == 0,
                Err(e) => {
                    &&& final(self).inner.stream_pos() == old(self).inner.stream_pos()
                    &&& (e == Error::Interrupted ==> final(cx).interrupted())
                },
            },
    {
        match self.inner.seek(SeekFrom::Start(0), cx) {
            Ok(_) => Ok(()),
            Err(e) => Err(e),
        }
    }

    /// Move the offset back by exactly `amount` bytes.
    pub fn rewind_exact(&mut self, amount: i64, cx: &mut Context) -> (r: Result<u64, Error>)
        requires
            amount != i64::MIN,
        ensures
            old(cx).interrupted() ==> final(cx).interrupted(),
            final(self).inner.stream_size() == old(self).inner.stream_size(),
            match r {
                Ok(p) => {
                    &&& p as int == old(self).inner.stream_pos() - amount as int
                    &&& final(self).inner.stream_pos() == p as int
                },
                Err(e) => {
                    &&& final(self).inner.stream_pos() == old(self).inner.stream_pos()
                    &&& (e == Error::Interrupted ==> final(cx).interrupted())
                },
            },
    {
        self.inner.seek(SeekFrom::Current(-amount), cx)
    }

    /// Move the offset forward by exactly `amount` bytes.
    pub fn skip_exact(&mut self, amount: i64, cx: &mut Context) -> (r: Result<u64, Error>)
        ensures
            old(cx).interrupted() ==> final(cx).interrupted(),
            final(self).inner.stream_size() == old(self).inner.stream_size(),
            match r {
                Ok(p) => {
                    &&& p as int == old(self).inner.stream_pos() + amount as int
                    &&& final(self).inner.stream_pos() == p as int
                },
                Err(e) => {
                    &&& final(self).inner.stream_pos() == old(self).inner.stream_pos()
                    &&& (e == Error::Interrupted ==> final(cx).interrupted())
                },
            },
    {
        self.inner.seek(SeekFrom::Current(amount), cx)
    }

    /// Whether the resource knows its length without an expensive operation,
    /// exactly as the resource declares it.
    pub fn stream_len_fast(&self) -> (r: bool)
        ensures
            r == self.inner.stream_len_is_fast(),
    {
        self.inner.stream_len_fast()
    }

    /// Length of the stream in bytes; the offset is restored when the
    /// resource had to move it to learn the length.
    pub fn stream_len(&mut self, cx: &mut Context) -> (r: Result<u64, Error>)
        ensures
            old(cx).interrupted() ==> final(cx).interrupted(),
            final(self).inner.stream_size() == old(self).inner.stream_size(),
            match r {
                Ok(n) => {
                    &&& n as int == old(self).inner.stream_size()
                    &&& final(self).inner.stream_pos() == old(self).inner.stream_pos()
                },
                Err(e) => {
                    &&& (final(self).inner.stream_pos() == old(self).inner.stream_pos()
                        || final(self).inner.stream_pos() == old(self).inner.stream_size())
                    &&& (e == Error::Interrupted ==> final(cx).interrupted())
                },
            },
    {
        self.inner.stream_len(cx)
    }

    /// Whether the resource knows its position without an expensive
    /// operation, exactly as the resource declares it.
    pub fn stream_position_fast(&self) -> (r: bool)
        ensures
            r == self.inner.stream_position_is_fast(),
    {
        self.inner.stream_position_fast()
    }

    /// Current position in the stream, in bytes.
    pub fn stream_position(&mut self, cx: &mut Context) -> (r: Result<u64, Error>)
        ensures
            old(cx).interrupted() ==> final(cx).interrupted(),
            final(self).inner.stream_size() == old(self).inner.stream_size(),
            final(self).inner.stream_pos() == old(self).inner.stream_pos(),
            match r {
                Ok(p) => p as int == old(self).inner.stream_pos(),
                Err(e) => e == Error::Interrupted ==> final(cx).interrupted(),
            },
    {
        self.inner.stream_position(cx)
    }
}

impl<Inner: Close> Stream<Inner> {
    /// Consume the stream and close the resource it owns.
    pub fn close(self, cx: &mut Context) -> (r: Result<(), Error>)
        ensures
            old(cx).interrupted() ==> final(cx).interrupted(),
            r matches Err(e) ==> (e == Error::Interrupted ==> final(cx).interrupted()),
    {
        self.inner.close(cx)
    }
}

impl<Inner: Read> Read for Stream<Inner> {
    open spec fn remaining(&self) -> Seq<u8> {
        self.inner.remaining()
    }

    fn read(&mut self, buf: &mut Vec<u8>, start: usize, cx: &mut Context) -> (r: Result<
        usize,
        Error,
    >) {
        self.inner.read(buf, start, cx)
    }
}

impl<Inner: Write> Write for Stream<Inner> {
    open spec fn written(&self) -> Seq<u8> {
        self.inner.written()
    }

    open spec fn wont_accept(&self) -> bool {
        self.inner.wont_accept()
    }

    fn write(&mut self, buf: &Vec<u8>, start: usize, cx: &mut Context) -> (r: Result<
        usize,
        Error,
    >) {
        self.inner.write(buf, start, cx)
    }

    fn flush(&mut self, cx: &mut Context) -> (r: Result<(), Error>) {
        self.inner.flush(cx)
    }
}

impl<Inner: Seek> Seek for Stream<Inner> {
    open spec fn stream_size(&self) -> int {
        self.inner.stream_size()
    }

    open spec fn stream_pos(&self) -> int {
        self.inner.stream_pos()
    }

    open spec fn stream_len_is_fast(&self) -> bool {
        self.inner.stream_len_is_fast()
    }

    open spec fn stream_position_is_fast(&self) -> bool {
        self.inner.stream_position_is_fast()
    }

    fn seek(&mut self, from: SeekFrom, cx: &mut Context) -> (r: Result<u64, Error>) {
        self.inner.seek(from, cx)
    }

    fn stream_len_fast(&self) -> (r: bool) {
        self.inner.stream_len_fast()
    }

    fn stream_len(&mut self, cx: &mut Context) -> (r: Result<u64, Error>) {
        self.inner.stream_len(cx)
    }

    fn stream_position_fast(&self) -> (r: bool) {
        self.inner.stream_position_fast()
    }

    fn stream_position(&mut self, cx: &mut Context) -> (r: Result<u64, Error>) {
        self.inner.stream_position(cx)
    }
}

impl<Inner: Close> Close for Stream<Inner> {
    fn close(self, cx: &mut Context) -> (r: Result<(), Error>) {
        self.inner.close(cx)
    }
}

/// Transferring `n` more bytes extends the consumed prefix of `source`: the
/// bytes taken from where a skip left off join onto the bytes already taken.
proof fn lemma_take_extend(source: Seq<u8>, done: int, n: int)
    requires
        0 <= done,
        0 <= n,
        done + n <= source.len(),
    ensures
        source.take(done) + source.skip(done).take(n) == source.take(done + n),
        source.skip(done).skip(n) == source.skip(done + n),
{
    assert(source.take(done) + source.skip(done).take(n) =~= source.take(done + n));
    assert(source.skip(done).skip(n) =~= source.skip(done + n));
}

/// After transferring `n` more bytes from `source` into a buffer already
/// holding its first `done` bytes, the buffer holds the first `done + n`
/// bytes: taking from where a skip left off extends the taken prefix.
proof fn lemma_take_skip_chain(source: Seq<u8>, buf0: Seq<u8>, done: int, n: int)
    requires
        0 <= done,
        0 <= n,
        done + n <= source.len(),
        done + n <= buf0.len(),
    ensures
        (source.take(done) + buf0.skip(done)).take(done) + source.skip(done).take(n) + (source.take(
            done,
        ) + buf0.skip(done)).skip(done + n) == source.take(done + n) + buf0.skip(done + n),
        source.skip(done).skip(n) == source.skip(done + n),
{
    assert((source.take(done) + buf0.skip(done)).take(done) + source.skip(done).take(n) + (
    source.take(done) + buf0.skip(done)).skip(done + n) =~= source.take(done + n) + buf0.skip(
        done + n,
    ));
    assert(source.skip(done).skip(n) =~= source.skip(done + n));
}

} // verus!

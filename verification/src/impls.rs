use vstd::prelude::*;

use crate::coroutines::Context;
use crate::error::Error;
use crate::io::{Close, Read, Seek, SeekFrom, Write};

verus! {

/// In-memory resource reading from, and seeking over, an owned byte buffer.
///
/// The offset may sit past the end of the data; reads from there simply see
/// an exhausted stream.
pub struct ByteCursor {
    pub data: Vec<u8>,
    pub pos: u64,
}

impl ByteCursor {
    /// A cursor over `data`, positioned at its start.
    pub fn new(data: Vec<u8>) -> (r: ByteCursor)
        ensures
            r.data@ == data@,
            r.pos == 0,
    {
        ByteCursor { data, pos: 0 }
    }
}

/// The position a relative seek lands on, or `None` when it would leave the
/// representable range.
fn seek_target(base: u64, delta: i64) -> (r: Option<u64>)
    ensures
        match r {
            Some(p) => p as int == base + delta,
            None => base + delta < 0 || base + delta > u64::MAX,
        },
{
    if delta >= 0 {
        let d = delta as u64;
        if base <= u64::MAX - d {
            Some(base + d)
        } else {
            None
        }
    } else {
        let m = (-(delta as i128)) as u64;
        if base >= m {
            Some(base - m)
        } else {
            None
        }
    }
}

impl Read for ByteCursor {
    open spec fn remaining(&self) -> Seq<u8> {
        if self.pos <= self.data@.len() {
            self.data@.skip(self.pos as int)
        } else {
            Seq::empty()
        }
    }

    fn read(&mut self, buf: &mut Vec<u8>, start: usize, _cx: &mut Context) -> (r: Result<
        usize,
        Error,
    >)
        ensures
            r is Ok,
            final(_cx).interrupted() == old(_cx).interrupted(),
    {
        let len = self.data.len();
        let avail: usize = if self.pos < len as u64 {
            (len as u64 - self.pos) as usize
        } else {
            0
        };
        let space = buf.len() - start;
        let k = if avail < space {
            avail
        } else {
            space
        };

        let ghost buf0 = buf@;
        let ghost rem = self.remaining();
        proof {
            assert(buf@ =~= buf0.take(start as int) + rem.take(0) + buf0.skip(start as int));
        }
        let mut i: usize = 0;
        while i < k
            invariant
                i <= k,
                k <= avail,
                avail == rem.len(),
                avail > 0 ==> self.pos + avail == self.data@.len(),
                rem == self.remaining(),
                self.data@.len() <= usize::MAX,
                start + k <= buf@.len(),
                buf@.len() <= usize::MAX,
                buf@.len() == buf0.len(),
                buf@ == buf0.take(start as int) + rem.take(i as int) + buf0.skip(start + i),
            decreases k - i,
        {
            let p = (self.pos + i as u64) as usize;
            let byte = self.data[p];
            proof {
                assert(rem[i as int] == self.data@[p as int]);
            }
            buf[start + i] = byte;
            proof {
                assert(buf@ =~= buf0.take(start as int) + rem.take(i + 1) + buf0.skip(
                    start + i + 1,
                ));
            }
            i = i + 1;
        }

        self.pos = self.pos + k as u64;
        proof {
            if k > 0 {
                assert(self.remaining() =~= rem.skip(k as int));
            } else {
                assert(self.remaining() =~= rem.skip(0));
            }
            assert(buf@ =~= buf0.take(start as int) + rem.take(k as int) + buf0.skip(
                (start + k) as int,
            ));
        }
        Ok(k)
    }
}

impl Seek for ByteCursor {
    open spec fn stream_size(&self) -> int {
        self.data@.len() as int
    }

    open spec fn stream_pos(&self) -> int {
        self.pos as int
    }

    fn stream_len_fast(&self) -> (r: bool) {
        false
    }

    fn stream_position_fast(&self) -> (r: bool) {
        false
    }

    fn seek(&mut self, from: SeekFrom, _cx: &mut Context) -> (r: Result<u64, Error>)
        ensures
            final(_cx).interrupted() == old(_cx).interrupted(),
            match from {
                SeekFrom::Start(off) => r is Ok,
                SeekFrom::End(delta) => r is Ok <==> 0 <= old(self).stream_size() + delta
                    <= u64::MAX,
                SeekFrom::Current(delta) => r is Ok <==> 0 <= old(self).stream_pos() + delta
                    <= u64::MAX,
            },
    {
        let target = match from {
            SeekFrom::Start(off) => Some(off),
            SeekFrom::End(delta) => seek_target(self.data.len() as u64, delta),
            SeekFrom::Current(delta) => seek_target(self.pos, delta),
        };

        match target {
            Some(p) => {
                self.pos = p;
                Ok(p)
            },
            // Seeking outside the representable range is refused the way the
            // operating system refuses an invalid argument.
            None => Err(Error::Os(22)),
        }
    }
}

impl Close for ByteCursor {
    fn close(self, _cx: &mut Context) -> (r: Result<(), Error>)
        ensures
            r is Ok,
            final(_cx).interrupted() == old(_cx).interrupted(),
    {
        Ok(())
    }
}

/// In-memory sink appending every byte written to an owned buffer; it always
/// makes forward progress.
pub struct VecSink {
    pub data: Vec<u8>,
}

impl VecSink {
    /// An empty sink.
    pub fn new() -> (r: VecSink)
        ensures
            r.data@ == Seq::<u8>::empty(),
    {
        VecSink { data: Vec::new() }
    }
}

impl Write for VecSink {
    open spec fn written(&self) -> Seq<u8> {
        self.data@
    }

    open spec fn wont_accept(&self) -> bool {
        false
    }

    fn write(&mut self, buf: &Vec<u8>, start: usize, _cx: &mut Context) -> (r: Result<
        usize,
        Error,
    >)
        ensures
            r matches Ok(n) && start + n == buf@.len(),
            final(_cx).interrupted() == old(_cx).interrupted(),
    {
        let ghost sink0 = self.data@;
        let mut i: usize = start;
        while i < buf.len()
            invariant
                start <= i <= buf@.len(),
                self.data@ == sink0 + buf@.subrange(start as int, i as int),
            decreases buf@.len() - i,
        {
            let byte = buf[i];
            self.data.push(byte);
            proof {
                assert(self.data@ =~= sink0 + buf@.subrange(start as int, i + 1));
            }
            i = i + 1;
        }
        Ok(buf.len() - start)
    }

    fn flush(&mut self, _cx: &mut Context) -> (r: Result<(), Error>)
        ensures
            r is Ok,
            final(_cx).interrupted() == old(_cx).interrupted(),
    {
        Ok(())
    }
}

impl Close for VecSink {
    fn close(self, _cx: &mut Context) -> (r: Result<(), Error>)
        ensures
            r is Ok,
            final(_cx).interrupted() == old(_cx).interrupted(),
    {
        Ok(())
    }
}

} // verus!

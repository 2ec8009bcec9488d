//! What a worker owns and the ports it works through.
//!
//! A worker reads or writes through a byte port implemented outside the
//! library (a file positioned at the worker's offset, a standard stream)
//! and reports through a monitor (a progress channel and a shared
//! cancellation flag).  The library states only what it needs of a port:
//! a read never claims more bytes than fit in the buffer.  In-memory
//! implementations are provided; they satisfy the same contracts and back
//! the tests.

use crate::errors::StreamError;
use vstd::prelude::*;

verus! {

/// The ghost byte sequence the ports' views are stated over.  It names
/// the result type of `ByteSource::remaining` for implementations
/// outside the library, whose view bodies exist only for the verifier.
pub type ByteSeq = Seq<u8>;

/// What one worker hands back: how many bytes it processed, the
/// checksum state over exactly those bytes, and whether a sibling's stop
/// signal cut the range short.
#[derive(Debug)]
pub struct WorkerResult {
    /// Bytes generated or validated by this worker, in range order.
    pub bytes: u64,
    /// Checksum state that has absorbed exactly those bytes.
    pub hasher: crc32fast::Hasher,
    /// Whether the worker stopped before the end of its range because a
    /// sibling requested an early stop.
    pub stopped_early: bool,
}

/// A destination for generated bytes: a file handle positioned at the
/// worker's byte offset, standard output, or a buffer.  A port's own
/// failures are input/output failures and nothing else.
pub trait ByteSink {
    /// Write the first `len` bytes of `buf`, entirely or not at all.
    fn write_all(&mut self, buf: &Vec<u8>, len: usize) -> (r: Result<(), StreamError>)
        requires
            len <= buf@.len(),
        ensures
            r is Err ==> r->Err_0 is Io,
    ;
}

/// A source of bytes to validate: a file handle positioned at the
/// worker's byte offset, standard input, or a buffer.  A port's own
/// failures are input/output failures and nothing else.
///
/// A source is modelled by the bytes it has yet to hand out: a read
/// delivers some prefix of them into the buffer, possibly fewer than
/// fit, and claims nothing when and only when the bytes are exhausted
/// (or it was given no space).  A failing read hands out nothing and
/// leaves the buffer alone, as readers document.
pub trait ByteSource {
    /// The bytes this source has yet to hand out, in order.
    spec fn remaining(&self) -> Seq<u8>;

    /// Read some bytes into `buf` starting at `start`; `Ok(0)` means end
    /// of input.
    fn read(&mut self, buf: &mut Vec<u8>, start: usize) -> (r: Result<usize, StreamError>)
        requires
            start <= old(buf)@.len(),
        ensures
            final(buf)@.len() == old(buf)@.len(),
            r is Err ==> r->Err_0 is Io && final(buf)@ == old(buf)@ && final(self).remaining()
                == old(self).remaining(),
            r is Ok ==> ({
                let n = r->Ok_0;
                &&& n <= old(buf)@.len() - start
                &&& n <= old(self).remaining().len()
                &&& final(self).remaining() == old(self).remaining().skip(n as int)
                &&& (forall|j: int|
                    0 <= j < n ==> #[trigger] final(buf)@[start + j] == old(self).remaining()[j])
                &&& (forall|j: int|
                    0 <= j < old(buf)@.len() && !(start <= j < start + n)
                        ==> #[trigger] final(buf)@[j] == old(buf)@[j])
                &&& (n == 0 && start < old(buf)@.len() ==> old(self).remaining().len() == 0)
            }),
    ;
}

/// A worker's view of the coordinator: somewhere to fold progress deltas
/// and a best-effort early-stop signal set by a failing sibling.
pub trait Monitor {
    /// Whether this monitor can ever answer that a stop was requested.
    /// A monitor that cannot lets a caller conclude its workers ran
    /// their whole ranges.
    spec fn may_cancel(&self) -> bool;

    /// Fold a delta of `bytes` newly processed into the displayed total.
    fn progress(&mut self, bytes: u64);

    /// Whether a sibling has requested an early stop.
    fn is_cancelled(&self) -> (r: bool)
        ensures
            r ==> self.may_cancel(),
    ;
}

/// Read until `buffer` is full from `start` on, or until the source
/// reports end of input.  On success the count is exactly the smaller
/// of the space given and the bytes the source held, the filled prefix
/// holds the source's next bytes in order, the rest of the buffer is
/// untouched, and the source has handed out exactly those bytes.  With
/// no space to fill it succeeds at once; it fails only as the source
/// fails, and then whatever was read before the failure stays in the
/// prefix, though its count is not reported.
pub fn read_exact_or_eof<R: ByteSource>(reader: &mut R, buffer: &mut Vec<u8>, start: usize) -> (r:
    Result<usize, StreamError>)
    requires
        start <= old(buffer)@.len(),
    ensures
        final(buffer)@.len() == old(buffer)@.len(),
        start == old(buffer)@.len() ==> r is Ok && r->Ok_0 == 0,
        r is Err ==> r->Err_0 is Io,
        r is Err ==> exists|k: int|
            {
                &&& 0 <= k <= old(buffer)@.len() - start
                &&& k <= old(reader).remaining().len()
                &&& final(reader).remaining() == old(reader).remaining().skip(k)
                &&& (forall|j: int|
                    0 <= j < k ==> #[trigger] final(buffer)@[start + j] == old(
                        reader,
                    ).remaining()[j])
                &&& (forall|j: int|
                    0 <= j < old(buffer)@.len() && !(start <= j < start + k)
                        ==> #[trigger] final(buffer)@[j] == old(buffer)@[j])
            },
        r is Ok ==> ({
            let n = r->Ok_0;
            let space = old(buffer)@.len() - start;
            let avail = old(reader).remaining().len() as int;
            &&& n == (if avail <= space {
                avail
            } else {
                space
            })
            &&& final(reader).remaining() == old(reader).remaining().skip(n as int)
            &&& (forall|j: int|
                0 <= j < n ==> #[trigger] final(buffer)@[start + j] == old(
                    reader,
                ).remaining()[j])
            &&& (forall|j: int|
                0 <= j < old(buffer)@.len() && !(start <= j < start + n)
                    ==> #[trigger] final(buffer)@[j] == old(buffer)@[j])
        }),
{
    let ghost rem0 = reader.remaining();
    let mut bytes_read: usize = 0;
    let mut eof = false;
    while !eof && bytes_read < buffer.len() - start
        invariant
            start <= buffer@.len(),
            start + bytes_read <= buffer@.len(),
            buffer@.len() == old(buffer)@.len(),
            rem0 == old(reader).remaining(),
            bytes_read <= rem0.len(),
            reader.remaining() == rem0.skip(bytes_read as int),
            forall|j: int| 0 <= j < bytes_read ==> #[trigger] buffer@[start + j] == rem0[j],
            forall|j: int|
                0 <= j < buffer@.len() && !(start <= j < start + bytes_read)
                    ==> #[trigger] buffer@[j] == old(buffer)@[j],
            eof ==> rem0.len() == bytes_read,
        decreases buffer@.len() - start - bytes_read, (if eof {
            0int
        } else {
            1int
        }),
    {
        let n = match reader.read(buffer, start + bytes_read) {
            Ok(n) => n,
            Err(e) => {
                proof {
                    assert(reader.remaining() == rem0.skip(bytes_read as int));
                }
                return Err(e)
            },
        };
        if n == 0 {
            eof = true;
        } else {
            proof {
                assert(rem0.skip(bytes_read as int).skip(n as int) =~= rem0.skip(
                    bytes_read + n,
                ));
                assert forall|j: int| 0 <= j < bytes_read + n implies #[trigger] buffer@[start
                    + j] == rem0[j] by {
                    if bytes_read <= j {
                        let k = j - bytes_read;
                        assert(buffer@[(start + bytes_read) + k] == rem0.skip(
                            bytes_read as int,
                        )[k]);
                        assert(rem0.skip(bytes_read as int)[k] == rem0[bytes_read + k]);
                    } else {
                        assert(buffer@[start + j] == rem0[j]);
                    }
                }
            }
            bytes_read += n;
        }
    }
    Ok(bytes_read)
}

/// A vector of `len` zero bytes, used as a worker's chunk buffer.
pub fn zero_vec(len: usize) -> (r: Vec<u8>)
    ensures
        r@ == Seq::new(len as nat, |i: int| 0u8),
{
    let mut v: Vec<u8> = Vec::new();
    let mut i: usize = 0;
    while i < len
        invariant
            i <= len,
            v@ == Seq::new(i as nat, |j: int| 0u8),
        decreases len - i,
    {
        v.push(0);
        proof {
            assert(v@ =~= Seq::new((i + 1) as nat, |j: int| 0u8));
        }
        i += 1;
    }
    v
}

/// A sink that collects everything written to it, in order.
pub struct MemSink {
    /// All bytes written so far.
    pub data: Vec<u8>,
}

impl MemSink {
    /// An empty sink.
    pub fn new() -> (r: MemSink)
        ensures
            r.data@.len() == 0,
    {
        MemSink { data: Vec::new() }
    }
}

impl ByteSink for MemSink {
    fn write_all(&mut self, buf: &Vec<u8>, len: usize) -> (r: Result<(), StreamError>)
        ensures
            final(self).data@ == old(self).data@ + buf@.subrange(0, len as int),
            r is Ok,
    {
        let mut i: usize = 0;
        while i < len
            invariant
                i <= len,
                len <= buf@.len(),
                self.data@ == old(self).data@ + buf@.subrange(0, i as int),
            decreases len - i,
        {
            self.data.push(buf[i]);
            proof {
                assert(self.data@ =~= old(self).data@ + buf@.subrange(0, i + 1));
            }
            i += 1;
        }
        Ok(())
    }
}

/// A source that hands out a fixed byte sequence, in order.
pub struct MemSource {
    /// The bytes still to be handed out come after `pos`.
    pub data: Vec<u8>,
    /// How many bytes have been handed out already.
    pub pos: usize,
}

impl MemSource {
    /// A source holding `data`, none of it read yet.
    pub fn new(data: Vec<u8>) -> (r: MemSource)
        ensures
            r.data@ == data@,
            r.pos == 0,
    {
        MemSource { data, pos: 0 }
    }
}

impl ByteSource for MemSource {
    /// The suffix of `data` past `pos`; a `pos` past the end means
    /// nothing is left.
    open spec fn remaining(&self) -> Seq<u8> {
        if self.pos <= self.data@.len() {
            self.data@.skip(self.pos as int)
        } else {
            Seq::empty()
        }
    }

    fn read(&mut self, buf: &mut Vec<u8>, start: usize) -> (r: Result<usize, StreamError>)
        ensures
            final(self).data@ == old(self).data@,
            r is Ok,
            r->Ok_0 as int == (if old(self).remaining().len() <= old(buf)@.len() - start {
                old(self).remaining().len() as int
            } else {
                old(buf)@.len() - start
            }),
    {
        let space = buf.len() - start;
        let pos = if self.pos <= self.data.len() {
            self.pos
        } else {
            self.data.len()
        };
        let left = self.data.len() - pos;
        let n = if left <= space {
            left
        } else {
            space
        };
        let mut i: usize = 0;
        while i < n
            invariant
                i <= n,
                start + n <= buf@.len(),
                pos + n <= self.data@.len(),
                buf@.len() <= usize::MAX,
                self.data@.len() <= usize::MAX,
                buf@.len() == old(buf)@.len(),
                self.data@ == old(self).data@,
                self.pos == old(self).pos,
                forall|j: int|
                    0 <= j < i ==> #[trigger] buf@[start + j] == self.data@[pos + j],
                forall|j: int|
                    0 <= j < buf@.len() && !(start <= j < start + i) ==> #[trigger] buf@[j]
                        == old(buf)@[j],
            decreases n - i,
        {
            let b = self.data[pos + i];
            buf.set(start + i, b);
            i += 1;
        }
        self.pos = pos + n;
        proof {
            assert(self.remaining() =~= old(self).remaining().skip(n as int));
        }
        Ok(n)
    }
}

/// A monitor that discards progress and never requests a stop.
pub struct PassiveMonitor {}

impl Monitor for PassiveMonitor {
    /// A passive monitor never answers that a stop was requested.
    open spec fn may_cancel(&self) -> bool {
        false
    }

    fn progress(&mut self, bytes: u64) {
    }

    fn is_cancelled(&self) -> (r: bool)
        ensures
            !r,
    {
        false
    }
}

} // verus!

//! Checking the stream: a worker's validate loop over its chunk range,
//! the unbounded single-reader pass, and the in-memory reference checker.
//!
//! A validating worker reads chunk-sized windows from its source and
//! holds each against the codec; its checksum state absorbs exactly the
//! bytes it read, and on success every window it absorbed passed
//! validation.  The in-memory checker pins the exact acceptance
//! condition: it succeeds if and only if every window of the buffer is a
//! well-formed chunk, and a failure names the first offending chunk.

use crate::codec::{chunk_ok, validate_chunk, TRAILER_LEN};
use crate::crc::{crc32_of, hasher_data, hasher_finalize, hasher_new, hasher_update};
use crate::errors::StreamError;
use crate::partition::{div_ceil, lemma_div_ceil_bounds};
use crate::worker::{read_exact_or_eof, zero_vec, ByteSource, Monitor, WorkerResult};
use vstd::bytes::spec_u32_from_le_bytes;
use vstd::prelude::*;

verus! {

/// The concatenation of a sequence of windows, in order.
pub open spec fn windows_flat(ws: Seq<Seq<u8>>) -> Seq<u8>
    decreases ws.len(),
{
    if ws.len() == 0 {
        Seq::empty()
    } else {
        windows_flat(ws.drop_last()) + ws.last()
    }
}

/// Every window fits in one chunk and passes chunk validation.
pub open spec fn windows_ok(ws: Seq<Seq<u8>>, chunk_size: int) -> bool {
    forall|i: int|
        0 <= i < ws.len() ==> ((#[trigger] ws[i]).len() <= chunk_size && chunk_ok(ws[i]))
}

/// What a validating worker's failure means: either its source's
/// input/output failure, or the chunk error of the first ill-formed
/// window it read.  `fs` stands for all windows read so far, the
/// offending one last: every earlier window passed, the error names the
/// offending window's chunk index within the worker's range, and a
/// checksum mismatch carries the window's trailer value and the
/// recomputed one.
pub open spec fn validate_error_spec(
    e: StreamError,
    chunk_size: int,
    start_chunk: int,
    end_chunk: int,
) -> bool {
    match e {
        StreamError::Io => true,
        StreamError::ChecksumMismatch { chunk_index, expected, actual } => exists|
            fs: Seq<Seq<u8>>,
        |
            {
                &&& #[trigger] windows_ok(fs.drop_last(), chunk_size)
                &&& fs.len() >= 1
                &&& start_chunk + fs.len() - 1 == chunk_index
                &&& start_chunk <= chunk_index < end_chunk
                &&& TRAILER_LEN <= fs.last().len() <= chunk_size
                &&& expected == spec_u32_from_le_bytes(
                    fs.last().subrange(fs.last().len() - TRAILER_LEN, fs.last().len() as int),
                )
                &&& actual == crc32_of(fs.last().subrange(0, fs.last().len() - TRAILER_LEN))
                &&& expected != actual
            },
        StreamError::InvalidTrailingBytes { chunk_index } => exists|fs: Seq<Seq<u8>>|
            {
                &&& #[trigger] windows_ok(fs.drop_last(), chunk_size)
                &&& fs.len() >= 1
                &&& start_chunk + fs.len() - 1 == chunk_index
                &&& start_chunk <= chunk_index < end_chunk
                &&& fs.last().len() < TRAILER_LEN
                &&& exists|i: int| 0 <= i < fs.last().len() && fs.last()[i] != 0
            },
        _ => false,
    }
}

/// One worker's validate pass over chunks `[start_chunk, end_chunk)`.
/// On success the worker read one window per chunk of its range —
/// every chunk unless a sibling's signal stopped it early — each window
/// at most one chunk long and each a well-formed chunk, and its
/// checksum state has absorbed exactly their bytes.  An empty range
/// succeeds without touching the source; a failure is either the
/// source's input/output failure or the chunk error of the first
/// ill-formed window, which stops the worker's own scan.
pub fn validate_range<R: ByteSource, M: Monitor>(
    source: &mut R,
    monitor: &mut M,
    chunk_size: usize,
    start_chunk: u64,
    end_chunk: u64,
) -> (r: Result<WorkerResult, StreamError>)
    requires
        1 <= chunk_size,
        start_chunk <= end_chunk,
        (end_chunk - start_chunk) * (chunk_size as int) <= u64::MAX,
    ensures
        r is Ok ==> exists|ws: Seq<Seq<u8>>|
            {
                &&& #[trigger] windows_ok(ws, chunk_size as int)
                &&& ws.len() <= end_chunk - start_chunk
                &&& hasher_data(r->Ok_0.hasher) == windows_flat(ws)
                &&& r->Ok_0.bytes == windows_flat(ws).len()
                &&& (!r->Ok_0.stopped_early ==> ws.len() == end_chunk - start_chunk)
            },
        r is Ok && r->Ok_0.stopped_early ==> final(monitor).may_cancel(),
        start_chunk == end_chunk ==> r is Ok,
        r is Err ==> validate_error_spec(
            r->Err_0,
            chunk_size as int,
            start_chunk as int,
            end_chunk as int,
        ),
{
    let ghost cs = chunk_size as int;
    let mut buffer: Vec<u8> = zero_vec(chunk_size);
    let mut hasher = hasher_new();
    let mut total: u64 = 0;
    let mut progress_bytes: u64 = 0;
    let mut chunk: u64 = start_chunk;
    let ghost mut ws: Seq<Seq<u8>> = Seq::empty();
    while chunk < end_chunk
        invariant
            1 <= chunk_size,
            cs == chunk_size as int,
            start_chunk <= chunk <= end_chunk,
            (end_chunk - start_chunk) * cs <= u64::MAX,
            buffer@.len() == chunk_size,
            windows_ok(ws, cs),
            ws.len() == chunk - start_chunk,
            hasher_data(hasher) == windows_flat(ws),
            total == windows_flat(ws).len(),
            total <= (chunk - start_chunk) * cs,
            progress_bytes <= total,
        decreases end_chunk - chunk,
    {
        proof {
            assert((chunk - start_chunk) * cs + cs == (chunk + 1 - start_chunk) * cs)
                by (nonlinear_arith);
            vstd::arithmetic::mul::lemma_mul_inequality(
                chunk as int + 1 - start_chunk as int,
                end_chunk as int - start_chunk as int,
                cs,
            );
        }
        let n = match read_exact_or_eof(source, &mut buffer, 0) {
            Ok(n) => n,
            Err(e) => { return Err(e) },
        };
        match validate_chunk(chunk, &buffer, 0, n) {
            Ok(()) => {},
            Err(e) => {
                proof {
                    lemma_failing_window(ws, buffer@.subrange(0, n as int), cs);
                }
                return Err(e);
            },
        }
        hasher_update(&mut hasher, &buffer, 0, n);
        proof {
            let w = buffer@.subrange(0, n as int);
            assert(ws.push(w).drop_last() =~= ws);
            ws = ws.push(w);
        }
        total = total + n as u64;
        progress_bytes = progress_bytes + n as u64;
        if chunk % 100 == 0 {
            monitor.progress(progress_bytes);
            progress_bytes = 0;
        }
        chunk = chunk + 1;
        if monitor.is_cancelled() {
            proof {
                assert(windows_ok(ws, cs) && hasher_data(hasher) == windows_flat(ws));
            }
            return Ok(
                WorkerResult { bytes: total, hasher, stopped_early: chunk < end_chunk },
            );
        }
    }
    proof {
        assert(windows_ok(ws, cs) && hasher_data(hasher) == windows_flat(ws));
    }
    Ok(WorkerResult { bytes: total, hasher, stopped_early: false })
}

/// The windows read before a failing one, with the failing one pushed
/// last, witness the shape `validate_error_spec` asks for.
proof fn lemma_failing_window(ws: Seq<Seq<u8>>, w: Seq<u8>, chunk_size: int)
    requires
        windows_ok(ws, chunk_size),
    ensures
        windows_ok(ws.push(w).drop_last(), chunk_size),
        ws.push(w).drop_last() == ws,
        ws.push(w).last() == w,
        ws.push(w).len() == ws.len() + 1,
{
    assert(ws.push(w).drop_last() =~= ws);
}

/// The single-reader validate pass over an unseekable source: read
/// chunk-sized windows until end of input (or a cap of `max_chunks`
/// windows, which a caller sets high enough never to bind).  Chunks are
/// indexed from zero in reading order.  A zero cap succeeds without
/// touching the source; a failure is either the source's input/output
/// failure or the chunk error of the first ill-formed window.
pub fn validate_stream<R: ByteSource, M: Monitor>(
    source: &mut R,
    monitor: &mut M,
    chunk_size: usize,
    max_chunks: u64,
) -> (r: Result<WorkerResult, StreamError>)
    requires
        1 <= chunk_size,
        max_chunks * (chunk_size as int) <= u64::MAX,
    ensures
        r is Ok ==> exists|ws: Seq<Seq<u8>>|
            {
                &&& #[trigger] windows_ok(ws, chunk_size as int)
                &&& ws.len() <= max_chunks
                &&& hasher_data(r->Ok_0.hasher) == windows_flat(ws)
                &&& r->Ok_0.bytes == windows_flat(ws).len()
                &&& (ws.len() == max_chunks || final(source).remaining().len() == 0)
            },
        max_chunks == 0 ==> r is Ok,
        r is Err ==> validate_error_spec(r->Err_0, chunk_size as int, 0, max_chunks as int),
{
    let ghost cs = chunk_size as int;
    let mut buffer: Vec<u8> = zero_vec(chunk_size);
    let mut hasher = hasher_new();
    let mut total: u64 = 0;
    let mut chunk: u64 = 0;
    let ghost mut ws: Seq<Seq<u8>> = Seq::empty();
    while chunk < max_chunks
        invariant
            1 <= chunk_size,
            cs == chunk_size as int,
            chunk <= max_chunks,
            max_chunks * cs <= u64::MAX,
            buffer@.len() == chunk_size,
            windows_ok(ws, cs),
            ws.len() == chunk,
            hasher_data(hasher) == windows_flat(ws),
            total == windows_flat(ws).len(),
            total <= chunk * cs,
        decreases max_chunks - chunk,
    {
        proof {
            assert(chunk * cs + cs == (chunk + 1) * cs) by (nonlinear_arith);
            vstd::arithmetic::mul::lemma_mul_inequality(
                chunk as int + 1,
                max_chunks as int,
                cs,
            );
        }
        let n = match read_exact_or_eof(source, &mut buffer, 0) {
            Ok(n) => n,
            Err(e) => { return Err(e) },
        };
        if n == 0 {
            proof {
                assert(windows_ok(ws, cs) && hasher_data(hasher) == windows_flat(ws));
            }
            return Ok(WorkerResult { bytes: total, hasher, stopped_early: false });
        }
        match validate_chunk(chunk, &buffer, 0, n) {
            Ok(()) => {},
            Err(e) => {
                proof {
                    lemma_failing_window(ws, buffer@.subrange(0, n as int), cs);
                }
                return Err(e);
            },
        }
        hasher_update(&mut hasher, &buffer, 0, n);
        proof {
            let w = buffer@.subrange(0, n as int);
            assert(ws.push(w).drop_last() =~= ws);
            ws = ws.push(w);
        }
        total = total + n as u64;
        monitor.progress(n as u64);
        chunk = chunk + 1;
    }
    proof {
        assert(windows_ok(ws, cs) && hasher_data(hasher) == windows_flat(ws));
    }
    Ok(WorkerResult { bytes: total, hasher, stopped_early: false })
}

/// Window `c` of a buffer cut greedily into chunk-sized windows.
pub open spec fn buffer_chunk(data: Seq<u8>, chunk_size: int, c: int) -> Seq<u8> {
    data.subrange(
        c * chunk_size,
        if (c + 1) * chunk_size <= data.len() {
            (c + 1) * chunk_size
        } else {
            data.len() as int
        },
    )
}

/// How many windows the buffer cuts into.
pub open spec fn buffer_num_chunks(data: Seq<u8>, chunk_size: int) -> int {
    div_ceil(data.len() as int, chunk_size)
}

/// Every window of the buffer is a well-formed chunk.
pub open spec fn buffer_ok(data: Seq<u8>, chunk_size: int) -> bool {
    forall|c: int|
        0 <= c < buffer_num_chunks(data, chunk_size) ==> chunk_ok(
            #[trigger] buffer_chunk(data, chunk_size, c),
        )
}

/// The reference checker: validate a whole in-memory buffer and return
/// its checksum.  It succeeds if and only if every chunk-sized window is
/// well formed; a failure names the first offending chunk and carries
/// the trailer's value and the recomputed one.
pub fn validate_vec(data: &Vec<u8>, chunk_size: usize) -> (r: Result<u32, StreamError>)
    requires
        1 <= chunk_size,
        data@.len() + chunk_size <= usize::MAX,
    ensures
        r is Ok <==> buffer_ok(data@, chunk_size as int),
        r is Ok ==> r->Ok_0 == crc32_of(data@),
        r is Err ==> ({
            let cs = chunk_size as int;
            match r->Err_0 {
                StreamError::ChecksumMismatch { chunk_index, expected, actual } => {
                    let w = buffer_chunk(data@, cs, chunk_index as int);
                    &&& 0 <= chunk_index < buffer_num_chunks(data@, cs)
                    &&& forall|j: int|
                        0 <= j < chunk_index ==> chunk_ok(#[trigger] buffer_chunk(data@, cs, j))
                    &&& w.len() >= TRAILER_LEN
                    &&& expected == spec_u32_from_le_bytes(
                        w.subrange(w.len() - TRAILER_LEN, w.len() as int),
                    )
                    &&& actual == crc32_of(w.subrange(0, w.len() - TRAILER_LEN))
                    &&& expected != actual
                },
                StreamError::InvalidTrailingBytes { chunk_index } => {
                    let w = buffer_chunk(data@, cs, chunk_index as int);
                    &&& 0 <= chunk_index < buffer_num_chunks(data@, cs)
                    &&& forall|j: int|
                        0 <= j < chunk_index ==> chunk_ok(#[trigger] buffer_chunk(data@, cs, j))
                    &&& w.len() < TRAILER_LEN
                    &&& exists|i: int| 0 <= i < w.len() && w[i] != 0
                },
                _ => false,
            }
        }),
{
    let ghost cs = chunk_size as int;
    let len = data.len();
    let mut offset: usize = 0;
    let mut c: u64 = 0;
    proof {
        lemma_div_ceil_bounds(len as int, cs);
    }
    while offset < len
        invariant
            1 <= chunk_size,
            cs == chunk_size as int,
            len == data@.len(),
            len + chunk_size <= usize::MAX,
            offset as int == (if c as int * cs <= len as int {
                c as int * cs
            } else {
                len as int
            }),
            c >= 1 ==> (c - 1) * cs < len,
            offset <= len,
            c as int <= offset as int,
            forall|j: int| 0 <= j < c ==> chunk_ok(#[trigger] buffer_chunk(data@, cs, j)),
        decreases len - offset,
    {
        proof {
            assert(c * cs + cs == (c + 1) * cs) by (nonlinear_arith);
        }
        let end = if len - offset >= chunk_size {
            offset + chunk_size
        } else {
            len
        };
        proof {
            assert(buffer_chunk(data@, cs, c as int) =~= data@.subrange(
                offset as int,
                end as int,
            ));
        }
        match validate_chunk(c, data, offset, end) {
            Ok(()) => {},
            Err(e) => {
                proof {
                    lemma_first_chunk_bad(data@, cs, c as int);
                }
                return Err(e);
            },
        }
        offset = end;
        c = c + 1;
    }
    proof {
        assert(c == buffer_num_chunks(data@, cs)) by {
            lemma_div_ceil_bounds(len as int, cs);
            let q = div_ceil(len as int, cs);
            assert(c as int == q) by (nonlinear_arith)
                requires
                    1 <= cs,
                    len as int <= c as int * cs,
                    c >= 1 ==> (c as int - 1) * cs < len as int,
                    c == 0 ==> len == 0,
                    len as int <= q * cs < len as int + cs,
                    0 <= q,
                    0 <= c,
            ;
        }
    }
    let mut hasher = hasher_new();
    hasher_update(&mut hasher, data, 0, len);
    proof {
        assert(hasher_data(hasher) =~= data@);
    }
    Ok(hasher_finalize(hasher))
}

/// A chunk index whose window is in range is below the window count.
proof fn lemma_first_chunk_bad(data: Seq<u8>, chunk_size: int, c: int)
    requires
        1 <= chunk_size,
        0 <= c,
        c * chunk_size < data.len(),
    ensures
        c < buffer_num_chunks(data, chunk_size),
{
    lemma_div_ceil_bounds(data.len() as int, chunk_size);
    let q = div_ceil(data.len() as int, chunk_size);
    assert(c < q) by (nonlinear_arith)
        requires
            1 <= chunk_size,
            0 <= c,
            c * chunk_size < data.len(),
            data.len() <= q * chunk_size,
    ;
}

} // verus!

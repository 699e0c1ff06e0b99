//! The run-length codec of the sample data.
//!
//! Compressed samples start with one big-endian 16-bit length per row. The
//! lengths are summed, and runs are decoded until that many encoded bytes
//! are used up. A run starts with a marker byte `n`, read as a signed
//! number: `-128` stands for nothing, a negative `n` repeats the next byte
//! `1 - n` times, and any other `n` is followed by `n + 1` bytes to copy.

use super::cursor::{bytes_at, offset_after_eof, readable, u16_at, ByteCursor};
use super::err::IoError;
use vstd::prelude::*;

verus! {

/// The marker byte that stands for no output at all.
pub const NOP_MARKER: u8 = 0x80;

/// The most bytes that one run can produce.
pub const MAX_RUN: u64 = 128;

/// The sum of the `rows` row lengths stored from offset `p` on.
pub open spec fn row_lengths_total(data: Seq<u8>, p: int, rows: nat) -> int
    decreases rows,
{
    if rows == 0 {
        0
    } else {
        row_lengths_total(data, p, (rows - 1) as nat) + u16_at(data, p + 2 * (rows - 1))
    }
}

/// `count` copies of `b`.
pub open spec fn repeated(b: u8, count: int) -> Seq<u8> {
    Seq::new(count as nat, |i: int| b)
}

/// What the runs from offset `p` on decode to, and the offset behind the
/// last of them, when runs are decoded as long as fewer than `budget`
/// encoded bytes are used up. `None` where the bytes end inside a run.
pub open spec fn unpacked(data: Seq<u8>, p: int, budget: int) -> Option<(Seq<u8>, int)>
    decreases
            if budget > 0 {
                budget
            } else {
                0
            },
{
    if budget <= 0 {
        Some((Seq::empty(), p))
    } else if !readable(data, p, 1) {
        None
    } else {
        let n = data[p];
        if n == NOP_MARKER {
            unpacked(data, p + 1, budget - 1)
        } else if n > NOP_MARKER {
            if !readable(data, p + 1, 1) {
                None
            } else {
                match unpacked(data, p + 2, budget - 2) {
                    Some((rest, end)) => Some((repeated(data[p + 1], 257 - n) + rest, end)),
                    None => None,
                }
            }
        } else {
            if !readable(data, p + 1, n + 1) {
                None
            } else {
                match unpacked(data, p + 2 + n, budget - 2 - n) {
                    Some((rest, end)) => Some((bytes_at(data, p + 1, n + 1) + rest, end)),
                    None => None,
                }
            }
        }
    }
}

/// What `rows` rows of compressed samples stored from offset `p` on decode
/// to, and the offset behind them. `None` where the bytes end early.
pub open spec fn rle_data(data: Seq<u8>, p: int, rows: nat) -> Option<(Seq<u8>, int)> {
    if !readable(data, p, 2 * (rows as int)) {
        None
    } else {
        unpacked(data, p + 2 * rows, row_lengths_total(data, p, rows))
    }
}

/// `prefix` put in front of a decoding result.
pub open spec fn prepend(prefix: Seq<u8>, tail: Option<(Seq<u8>, int)>) -> Option<(Seq<u8>, int)> {
    match tail {
        Some((rest, end)) => Some((prefix + rest, end)),
        None => None,
    }
}

/// The current location in the stream.
pub fn tell(rdr: &mut ByteCursor) -> (r: Result<u64, IoError>)
    ensures
        *final(rdr) == *old(rdr),
        r == Ok::<u64, IoError>(old(rdr).offset()),
{
    Ok(rdr.tell())
}

/// Appends `count` copies of `b` to `out`.
fn push_repeated(out: &mut Vec<u8>, b: u8, count: u64)
    ensures
        final(out)@ == old(out)@ + repeated(b, count as int),
{
    let mut i: u64 = 0;
    while i < count
        invariant
            i <= count,
            out@ == old(out)@ + repeated(b, i as int),
        decreases count - i,
    {
        out.push(b);
        i = i + 1;
        assert(out@ =~= old(out)@ + repeated(b, i as int));
    }
}

/// Decodes runs from the cursor onto the end of `out` for as long as fewer
/// than `budget` encoded bytes are used up.
pub fn unpack_runs(rdr: &mut ByteCursor, budget: u64, out: &mut Vec<u8>) -> (r: Result<
    (),
    IoError,
>)
    ensures
        final(rdr).bytes() == old(rdr).bytes(),
        match unpacked(old(rdr).bytes(), old(rdr).offset() as int, budget as int) {
            Some((produced, end)) => {
                &&& r is Ok
                &&& final(out)@ == old(out)@ + produced
                &&& final(rdr).offset() == end
            },
            None => r == Err::<(), IoError>(IoError::UnexpectedEof) && final(rdr).offset()
                == offset_after_eof(old(rdr).bytes(), old(rdr).offset() as int),
        },
{
    let ghost data = rdr.bytes();
    let ghost start = rdr.offset() as int;
    let ghost mut produced: Seq<u8> = Seq::empty();
    let mut left: u64 = budget;
    assert(out@ =~= old(out)@ + produced);
    assert(prepend(produced, unpacked(data, start, budget as int)) =~= unpacked(
        data,
        start,
        budget as int,
    )) by {
        match unpacked(data, start, budget as int) {
            Some((rest, end)) => {
                assert(produced + rest =~= rest);
            },
            None => {},
        }
    }
    while left > 0
        invariant
            data == old(rdr).bytes(),
            start == old(rdr).offset(),
            rdr.bytes() == data,
            out@ == old(out)@ + produced,
            unpacked(data, start, budget as int) == prepend(
                produced,
                unpacked(data, rdr.offset() as int, left as int),
            ),
            left < budget ==> rdr.offset() <= data.len(),
            offset_after_eof(data, rdr.offset() as int) == offset_after_eof(data, start),
        decreases left,
    {
        let ghost here = rdr.offset() as int;
        let n: u8 = match rdr.read_u8() {
            Ok(n) => n,
            Err(e) => {
                return Err(e);
            },
        };
        let used: u64;
        if n == NOP_MARKER {
            used = 1;
        } else if n > NOP_MARKER {
            let count: u64 = 257 - (n as u64);
            let b: u8 = match rdr.read_u8() {
                Ok(b) => b,
                Err(e) => {
                    return Err(e);
                },
            };
            push_repeated(out, b, count);
            used = 2;
            proof {
                let run = repeated(b, count as int);
                let tail = unpacked(data, here + 2, left - 2);
                lemma_prepend_twice(produced, run, tail);
                produced = produced + run;
                assert(out@ =~= old(out)@ + produced);
            }
        } else {
            let count: u64 = (n as u64) + 1;
            let mut chunk: Vec<u8> = match rdr.read_exact(count) {
                Ok(chunk) => chunk,
                Err(e) => {
                    return Err(e);
                },
            };
            let ghost run = chunk@;
            out.append(&mut chunk);
            used = 1 + count;
            proof {
                let tail = unpacked(data, here + 2 + n, left - 2 - n);
                lemma_prepend_twice(produced, run, tail);
                produced = produced + run;
                assert(out@ =~= old(out)@ + produced);
            }
        }
        left = if used >= left {
            0
        } else {
            left - used
        };
    }
    Ok(())
}

/// Prepending `a` and then `b` is prepending `a + b`.
proof fn lemma_prepend_twice(a: Seq<u8>, b: Seq<u8>, tail: Option<(Seq<u8>, int)>)
    ensures
        prepend(a, prepend(b, tail)) == prepend(a + b, tail),
{
    match tail {
        Some((rest, end)) => {
            assert(a + (b + rest) =~= (a + b) + rest);
        },
        None => {},
    }
}

/// How much room to set aside for decoded samples: the caller's guess, but
/// no more than `MAX_RUN` bytes for each encoded byte at hand.
pub fn reserve_for(size_hint: usize, encoded: u64) -> (r: usize)
    ensures
        r as int == if size_hint <= MAX_RUN * encoded {
            size_hint as int
        } else {
            MAX_RUN * encoded
        },
{
    if encoded > (usize::MAX as u64) / MAX_RUN {
        size_hint
    } else {
        let cap: usize = (MAX_RUN * encoded) as usize;
        if size_hint <= cap {
            size_hint
        } else {
            cap
        }
    }
}

/// Reads `height` rows of run-length compressed data into a vector.
/// `size_hint` is a guess at the size of the uncompressed data; it decides
/// nothing about the result.
pub fn read_rle_data(rdr: &mut ByteCursor, height: u32, size_hint: usize) -> (r: Result<
    Vec<u8>,
    IoError,
>)
    ensures
        final(rdr).bytes() == old(rdr).bytes(),
        match rle_data(old(rdr).bytes(), old(rdr).offset() as int, height as nat) {
            Some((samples, end)) => r is Ok && r->Ok_0@ == samples && final(rdr).offset() == end,
            None => r == Err::<Vec<u8>, IoError>(IoError::UnexpectedEof) && final(rdr).offset()
                == offset_after_eof(old(rdr).bytes(), old(rdr).offset() as int),
        },
{
    let ghost data = rdr.bytes();
    let ghost start = rdr.offset() as int;
    // Only the sum of the row lengths matters.
    let mut total: u64 = 0;
    let mut row: u32 = 0;
    while row < height
        invariant
            row <= height,
            data == old(rdr).bytes(),
            start == old(rdr).offset(),
            rdr.bytes() == data,
            rdr.offset() == start + 2 * row,
            row > 0 ==> start + 2 * row <= data.len(),
            total == row_lengths_total(data, start, row as nat),
            total <= 0xffff * row,
        decreases height - row,
    {
        let len: u16 = match rdr.read_u16_be() {
            Ok(len) => len,
            Err(e) => {
                return Err(e);
            },
        };
        total = total + (len as u64);
        row = row + 1;
    }
    let encoded: u64 = if total <= rdr.remaining() {
        total
    } else {
        rdr.remaining()
    };
    let mut out: Vec<u8> = Vec::with_capacity(reserve_for(size_hint, encoded));
    match unpack_runs(rdr, total, &mut out) {
        Ok(()) => {
            Ok(out)
        },
        Err(e) => Err(e),
    }
}

/// One run of compressed samples, as an encoder would choose it.
pub enum Run {
    /// The marker that stands for nothing.
    Nop,
    /// One byte, `count` times over.
    Repeat { byte: u8, count: int },
    /// Bytes to copy as they are.
    Literal { bytes: Seq<u8> },
}

/// Whether a run can be written down: a repeat of 2 to 128 bytes, or 1 to
/// 128 bytes to copy.
pub open spec fn run_is_valid(run: Run) -> bool {
    match run {
        Run::Nop => true,
        Run::Repeat { byte, count } => 2 <= count <= MAX_RUN,
        Run::Literal { bytes } => 1 <= bytes.len() <= MAX_RUN,
    }
}

/// The encoded bytes of one run.
pub open spec fn run_encoding(run: Run) -> Seq<u8> {
    match run {
        Run::Nop => seq![NOP_MARKER],
        Run::Repeat { byte, count } => seq![(257 - count) as u8, byte],
        Run::Literal { bytes } => seq![(bytes.len() - 1) as u8] + bytes,
    }
}

/// The samples that one run stands for.
pub open spec fn run_samples(run: Run) -> Seq<u8> {
    match run {
        Run::Nop => Seq::empty(),
        Run::Repeat { byte, count } => repeated(byte, count),
        Run::Literal { bytes } => bytes,
    }
}

/// The encoded bytes of a sequence of runs.
pub open spec fn encoding(runs: Seq<Run>) -> Seq<u8>
    decreases runs.len(),
{
    if runs.len() == 0 {
        Seq::empty()
    } else {
        run_encoding(runs[0]) + encoding(runs.skip(1))
    }
}

/// The samples that a sequence of runs stands for.
pub open spec fn samples(runs: Seq<Run>) -> Seq<u8>
    decreases runs.len(),
{
    if runs.len() == 0 {
        Seq::empty()
    } else {
        run_samples(runs[0]) + samples(runs.skip(1))
    }
}

/// Decoding inverts encoding, run by run: where the bytes from offset `p`
/// on are the encoding of valid runs, decoding with the encoding's length
/// as budget gives back the samples of those runs and stops right behind
/// the encoding.
pub proof fn lemma_unpacked_inverts_encoding(runs: Seq<Run>, data: Seq<u8>, p: int)
    requires
        forall|i: int| 0 <= i < runs.len() ==> run_is_valid(#[trigger] runs[i]),
        0 <= p,
        p + encoding(runs).len() <= data.len(),
        data.subrange(p, p + encoding(runs).len()) == encoding(runs),
    ensures
        unpacked(data, p, encoding(runs).len() as int) == Some(
            (samples(runs), p + encoding(runs).len()),
        ),
    decreases runs.len(),
{
    if runs.len() > 0 {
        let first = runs[0];
        let rest = runs.skip(1);
        let head = run_encoding(first);
        let k = head.len() as int;
        let whole = encoding(runs);
        assert forall|i: int| 0 <= i < rest.len() implies run_is_valid(#[trigger] rest[i]) by {
            assert(rest[i] == runs[i + 1]);
        }
        assert forall|i: int| 0 <= i < whole.len() implies data[p + i] == whole[i] by {
            assert(data.subrange(p, p + whole.len())[i] == data[p + i]);
        }
        assert(data.subrange(p + k, p + k + encoding(rest).len()) =~= encoding(rest)) by {
            assert forall|i: int| 0 <= i < encoding(rest).len() implies data[p + k + i]
                == encoding(rest)[i] by {
                assert(whole[k + i] == encoding(rest)[i]);
            }
        }
        lemma_unpacked_inverts_encoding(rest, data, p + k);
        assert(data[p] == head[0]) by {
            assert(whole[0] == head[0]);
        }
        match first {
            Run::Nop => {
                assert(samples(runs) =~= samples(rest));
            },
            Run::Repeat { byte, count } => {
                assert(data[p + 1] == byte) by {
                    assert(whole[1] == head[1]);
                }
            },
            Run::Literal { bytes } => {
                assert(bytes_at(data, p + 1, bytes.len() as int) =~= bytes) by {
                    assert forall|i: int| 0 <= i < bytes.len() implies data[p + 1 + i]
                        == bytes[i] by {
                        assert(whole[1 + i] == head[1 + i]);
                    }
                }
            },
        }
    }
}

/// The round trip of the codec: where `rows` row lengths stored from
/// offset `p` on add up to the length of the encoding of valid runs, and
/// that encoding follows them, the stored data decodes to the samples of
/// those runs, and the encoded bytes used up are as many as the row lengths
/// declare.
pub proof fn lemma_rle_round_trip(runs: Seq<Run>, data: Seq<u8>, p: int, rows: nat)
    requires
        forall|i: int| 0 <= i < runs.len() ==> run_is_valid(#[trigger] runs[i]),
        0 <= p,
        p + 2 * rows + encoding(runs).len() <= data.len(),
        row_lengths_total(data, p, rows) == encoding(runs).len(),
        data.subrange(p + 2 * rows, p + 2 * rows + encoding(runs).len()) == encoding(runs),
    ensures
        rle_data(data, p, rows) == Some(
            (samples(runs), p + 2 * rows + row_lengths_total(data, p, rows)),
        ),
{
    lemma_unpacked_inverts_encoding(runs, data, p + 2 * rows);
}

} // verus!

//! The run-length codec with a boundary after every row.
//!
//! The samples are stored as in the codec that sums the row lengths, but
//! here each row length is a budget of its own: the runs of a row are
//! decoded until its length is used up, and the next row starts behind the
//! last run of the row before.

use super::cursor::{offset_after_eof, readable, u16_at, ByteCursor};
use super::err::IoError;
use super::util::{prepend, reserve_for, unpack_runs, unpacked};
use vstd::prelude::*;

verus! {

/// What the rows from number `row` on decode to, and the offset behind
/// them, where the row lengths are stored from offset `lengths` on and the
/// runs of row `row` start at offset `p`. `None` where the bytes end inside
/// a run.
pub open spec fn rows_unpacked(data: Seq<u8>, lengths: int, row: nat, rows: nat, p: int) -> Option<
    (Seq<u8>, int),
>
    decreases rows - row,
{
    if row >= rows {
        Some((Seq::empty(), p))
    } else {
        match unpacked(data, p, u16_at(data, lengths + 2 * row) as int) {
            Some((first, next)) => prepend(
                first,
                rows_unpacked(data, lengths, row + 1, rows, next),
            ),
            None => None,
        }
    }
}

/// What `rows` rows of compressed samples stored from offset `p` on decode
/// to, row by row, and the offset behind them. `None` where the bytes end
/// early.
pub open spec fn rle_data(data: Seq<u8>, p: int, rows: nat) -> Option<(Seq<u8>, int)> {
    if !readable(data, p, 2 * (rows as int)) {
        None
    } else {
        rows_unpacked(data, p, 0, rows, p + 2 * rows)
    }
}

/// The current location in the stream.
pub fn tell(rdr: &mut ByteCursor) -> (r: Result<u64, IoError>)
    ensures
        *final(rdr) == *old(rdr),
        r == Ok::<u64, IoError>(old(rdr).offset()),
{
    Ok(rdr.tell())
}

/// Reads `height` rows of run-length compressed data into a vector, row by
/// row. `size_hint` is a guess at the size of the uncompressed data; it
/// decides nothing about the result.
pub fn read_rle_data(rdr: &mut ByteCursor, height: u32, size_hint: usize) -> (r: Result<
    Vec<u8>,
    IoError,
>)
    ensures
        final(rdr).bytes() == old(rdr).bytes(),
        match rle_data(old(rdr).bytes(), old(rdr).offset() as int, height as nat) {
            Some((samples, end)) => r is Ok && r->Ok_0@ == samples && final(rdr).offset() == end,
            None => r == Err::<Vec<u8>, IoError>(IoError::UnexpectedEof) && final(rdr).offset()
                == offset_after_eof(old(rdr).bytes(), old(rdr).offset() as int),
        },
{
    let ghost data = rdr.bytes();
    let ghost start = rdr.offset() as int;
    // Read the lengths of the RLE-coded scanlines
    let mut lens: Vec<u16> = Vec::new();
    let mut row: u32 = 0;
    while row < height
        invariant
            row <= height,
            data == old(rdr).bytes(),
            start == old(rdr).offset(),
            rdr.bytes() == data,
            rdr.offset() == start + 2 * row,
            row > 0 ==> start + 2 * row <= data.len(),
            lens@.len() == row,
            forall|i: int| 0 <= i < row ==> lens@[i] == u16_at(data, start + 2 * i),
        decreases height - row,
    {
        let len: u16 = match rdr.read_u16_be() {
            Ok(len) => len,
            Err(e) => {
                return Err(e);
            },
        };
        lens.push(len);
        row = row + 1;
    }

    // Decode.
    let mut out: Vec<u8> = Vec::with_capacity(reserve_for(size_hint, rdr.remaining()));
    let ghost whole = rows_unpacked(data, start, 0, height as nat, start + 2 * height);
    assert(prepend(out@, whole) =~= whole) by {
        match whole {
            Some((samples, end)) => {
                assert(out@ + samples =~= samples);
            },
            None => {},
        }
    }
    let mut done: usize = 0;
    while done < lens.len()
        invariant
            done <= lens@.len(),
            lens@.len() == height,
            data == old(rdr).bytes(),
            start == old(rdr).offset(),
            rdr.bytes() == data,
            forall|i: int| 0 <= i < height ==> lens@[i] == u16_at(data, start + 2 * i),
            whole == rows_unpacked(data, start, 0, height as nat, start + 2 * height),
            whole == prepend(
                out@,
                rows_unpacked(data, start, done as nat, height as nat, rdr.offset() as int),
            ),
            offset_after_eof(data, rdr.offset() as int) == offset_after_eof(data, start),
            readable(data, start, 2 * (height as int)),
        decreases lens@.len() - done,
    {
        let ghost before = out@;
        let ghost here = rdr.offset() as int;
        let len: u16 = lens[done];
        match unpack_runs(rdr, len as u64, &mut out) {
            Ok(()) => {
                proof {
                    let first = unpacked(data, here, len as int)->Some_0.0;
                    let rest = rows_unpacked(
                        data,
                        start,
                        (done + 1) as nat,
                        height as nat,
                        rdr.offset() as int,
                    );
                    match rest {
                        Some((tail, end)) => {
                            assert(before + (first + tail) =~= (before + first) + tail);
                        },
                        None => {},
                    }
                    lemma_unpacked_stays_inside(data, here, len as int);
                }
            },
            Err(e) => {
                return Err(e);
            },
        }
        done = done + 1;
    }
    Ok(out)
}

/// Decoding that succeeds ends at an offset from which a failed read runs
/// to the same place as from where decoding started.
proof fn lemma_unpacked_stays_inside(data: Seq<u8>, p: int, budget: int)
    requires
        0 <= p,
        unpacked(data, p, budget) is Some,
    ensures
        offset_after_eof(data, unpacked(data, p, budget)->Some_0.1) == offset_after_eof(data, p),
    decreases
            if budget > 0 {
                budget
            } else {
                0
            },
{
    if budget > 0 {
        let n = data[p];
        if n == 0x80 {
            lemma_unpacked_stays_inside(data, p + 1, budget - 1);
        } else if n > 0x80 {
            lemma_unpacked_stays_inside(data, p + 2, budget - 2);
        } else {
            lemma_unpacked_stays_inside(data, p + 2 + n, budget - 2 - n);
        }
    }
}

} // verus!

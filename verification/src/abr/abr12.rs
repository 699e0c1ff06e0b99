//! The flat layout of versions 1 and 2: a counted list of records, each a
//! big-endian 16-bit length followed by that many bytes.

use super::cursor::{readable, u16_at, u32_at, u8_at, ByteCursor};
use super::err::{BrushError, IoError, OpenError};
use super::image::{
    item_view, next_view, read_image, stored_image, Bounds, BrushModel, ImageBrush,
    SUPPORTED_DEPTH,
};
use super::util;
use vstd::prelude::*;

verus! {

/// The type tag of a sampled brush, the only kind that is decoded.
pub const SAMPLED_BRUSH: u16 = 2;

/// The version whose records carry a name.
pub const NAMED_VERSION: u16 = 2;

/// Decoder state for the flat layout.
pub struct Decoder {
    rdr: ByteCursor,
    version: u16,
    count: u16,
    next_brush_pos: u64,
}

/// What a decoder of the flat layout stands for: the bytes, the version,
/// the number of records still to come and the offset of the next one.
pub struct DecoderState {
    pub data: Seq<u8>,
    pub version: u16,
    pub count: u16,
    pub next_brush_pos: u64,
}

impl View for Decoder {
    type V = DecoderState;

    closed spec fn view(&self) -> DecoderState {
        DecoderState {
            data: self.rdr.bytes(),
            version: self.version,
            count: self.count,
            next_brush_pos: self.next_brush_pos,
        }
    }
}

/// Where the record behind the one at offset `pos` starts: behind the
/// length field and as many bytes as it says.
pub open spec fn brush_head(data: Seq<u8>, pos: int) -> Result<u64, IoError> {
    if !readable(data, pos, 2) {
        Err(IoError::UnexpectedEof)
    } else if pos + 2 + u16_at(data, pos) > u64::MAX {
        Err(IoError::InvalidSeek)
    } else {
        Ok((pos + 2 + u16_at(data, pos)) as u64)
    }
}

/// The offset of the fields that all versions share, for a record whose
/// type tag ends at offset `p`: behind 6 bytes that are not looked at and,
/// in version 2, behind a name of 4 bytes for each unit of its 32-bit
/// length.
pub open spec fn preamble_end(data: Seq<u8>, p: int, version: u16) -> Result<int, IoError> {
    if !readable(data, p, 6) {
        Err(IoError::UnexpectedEof)
    } else if version != NAMED_VERSION {
        Ok(p + 6)
    } else if !readable(data, p + 6, 4) {
        Err(IoError::UnexpectedEof)
    } else if p + 10 + 4 * u32_at(data, p + 6) > u64::MAX {
        Err(IoError::InvalidSeek)
    } else {
        Ok(p + 10 + 4 * u32_at(data, p + 6))
    }
}

/// The bounding box of the record whose shared fields start at offset `p`:
/// four 16-bit values behind the anti-aliasing flag.
pub open spec fn bounds_at(data: Seq<u8>, p: int) -> Bounds {
    Bounds {
        top: u16_at(data, p + 1) as u32,
        left: u16_at(data, p + 3) as u32,
        bottom: u16_at(data, p + 5) as u32,
        right: u16_at(data, p + 7) as u32,
    }
}

/// The brush in the record whose shared fields start at offset `p`: the
/// anti-aliasing flag, the bounding box, its four 32-bit copies, the depth,
/// the compression flag and the samples.
pub open spec fn brush_tail(data: Seq<u8>, p: int) -> Result<BrushModel, BrushError> {
    if !readable(data, p, 27) {
        Err(BrushError::IoError(IoError::UnexpectedEof))
    } else if u16_at(data, p + 25) != SUPPORTED_DEPTH {
        Err(BrushError::UnsupportedBitDepth { depth: u16_at(data, p + 25) })
    } else if !readable(data, p + 27, 1) {
        Err(BrushError::IoError(IoError::UnexpectedEof))
    } else {
        stored_image(data, p + 28, bounds_at(data, p), u8_at(data, p + 27) != 0)
    }
}

/// The brush in the record whose body starts at offset `p`, right behind
/// its length field.
pub open spec fn brush_body(data: Seq<u8>, p: int, version: u16) -> Result<
    BrushModel,
    BrushError,
> {
    if !readable(data, p, 2) {
        Err(BrushError::IoError(IoError::UnexpectedEof))
    } else if u16_at(data, p) != SAMPLED_BRUSH {
        Err(BrushError::UnsupportedBrushType { ty: u16_at(data, p) })
    } else {
        match preamble_end(data, p + 2, version) {
            Ok(shared) => brush_tail(data, shared),
            Err(e) => Err(BrushError::IoError(e)),
        }
    }
}

/// One step of the decoder: what it yields and the state it is left in.
///
/// With no record to come it yields nothing and stays as it is. Else the
/// next record is located. Where that fails the failure is yielded and no
/// record is to come any more. Where it succeeds the decoder moves on to
/// the record behind, whatever decoding the located record gives.
pub open spec fn step(s: DecoderState) -> (Option<Result<BrushModel, BrushError>>, DecoderState) {
    if s.count == 0 {
        (None, s)
    } else {
        match brush_head(s.data, s.next_brush_pos as int) {
            Ok(next) => (
                Some(brush_body(s.data, s.next_brush_pos + 2, s.version)),
                DecoderState { count: (s.count - 1) as u16, next_brush_pos: next, ..s },
            ),
            Err(e) => (Some(Err(BrushError::IoError(e))), DecoderState { count: 0, ..s }),
        }
    }
}

/// A decoder for `count` records that start at the cursor.
pub fn open(rdr: ByteCursor, version: u16, count: u16) -> (r: Result<Decoder, OpenError>)
    ensures
        r is Ok,
        r->Ok_0@ == (DecoderState {
            data: rdr.bytes(),
            version,
            count,
            next_brush_pos: rdr.offset(),
        }),
{
    let mut rdr = rdr;
    let cur_pos: u64 = match util::tell(&mut rdr) {
        Ok(pos) => pos,
        Err(e) => {
            return Err(OpenError::IoError(e));
        },
    };
    Ok(Decoder { rdr, version, count, next_brush_pos: cur_pos })
}

/// Decodes the next brush, if one is to come.
pub fn next_brush(dec: &mut Decoder) -> (r: Option<Result<ImageBrush, BrushError>>)
    ensures
        (next_view(r), final(dec)@) == step(old(dec)@),
{
    if dec.count == 0 {
        return None;
    }
    dec.count = dec.count - 1;

    Some(
        match do_brush_head(dec) {
            Ok(next_brush_pos) => {
                dec.next_brush_pos = next_brush_pos;
                do_brush_body(dec)
            },
            Err(e) => {
                // The next brush's position is unknown, so there is no
                // going on from here: the iteration is over.
                dec.count = 0;
                Err(BrushError::IoError(e))
            },
        },
    )
}

/// Moves `dec` into position to read out the next brush with
/// `do_brush_body`. Returns where the brush after this one is located.
fn do_brush_head(dec: &mut Decoder) -> (r: Result<u64, IoError>)
    ensures
        final(dec)@ == old(dec)@,
        r == brush_head(old(dec)@.data, old(dec)@.next_brush_pos as int),
        r is Ok ==> final(dec).rdr.offset() == old(dec)@.next_brush_pos + 2,
{
    let brush_pos: u64 = dec.next_brush_pos;
    dec.rdr.seek_to(brush_pos);

    let len: u16 = dec.rdr.read_u16_be()?;
    // We are now at brush_pos + 2.
    dec.rdr.offset_after(len as u64)
}

/// Skips what lies between the type tag and the fields that all versions
/// share.
fn skip_preamble(rdr: &mut ByteCursor, version: u16) -> (r: Result<(), IoError>)
    ensures
        final(rdr).bytes() == old(rdr).bytes(),
        match preamble_end(old(rdr).bytes(), old(rdr).offset() as int, version) {
            Ok(end) => r is Ok && final(rdr).offset() == end,
            Err(e) => r == Err::<(), IoError>(e),
        },
{
    let _misc: u32 = rdr.read_u32_be()?;
    let _spacing: u16 = rdr.read_u16_be()?;

    if version == NAMED_VERSION {
        // Skip over a length-prefixed name.
        let len: u32 = rdr.read_u32_be()?;
        let len_in_bytes: i64 = 4 * (len as i64);
        rdr.seek_by(len_in_bytes)?;
    }
    Ok(())
}

/// Reads the anti-aliasing flag, the bounding box and its four 32-bit
/// copies.
fn read_bounds(rdr: &mut ByteCursor) -> (r: Result<Bounds, IoError>)
    ensures
        final(rdr).bytes() == old(rdr).bytes(),
        readable(old(rdr).bytes(), old(rdr).offset() as int, 25) ==> r == Ok::<Bounds, IoError>(
            bounds_at(old(rdr).bytes(), old(rdr).offset() as int),
        ) && final(rdr).offset() == old(rdr).offset() + 25,
        !readable(old(rdr).bytes(), old(rdr).offset() as int, 25) ==> r == Err::<
            Bounds,
            IoError,
        >(IoError::UnexpectedEof),
{
    let _antialiasing: u8 = rdr.read_u8()?;

    let top: u16 = rdr.read_u16_be()?;
    let left: u16 = rdr.read_u16_be()?;
    let bottom: u16 = rdr.read_u16_be()?;
    let right: u16 = rdr.read_u16_be()?;

    let _topl: u32 = rdr.read_u32_be()?;
    let _leftl: u32 = rdr.read_u32_be()?;
    let _bottoml: u32 = rdr.read_u32_be()?;
    let _rightl: u32 = rdr.read_u32_be()?;

    Ok(Bounds { top: top as u32, left: left as u32, bottom: bottom as u32, right: right as u32 })
}

/// With `dec` positioned by `do_brush_head`, reads out a brush.
fn do_brush_body(dec: &mut Decoder) -> (r: Result<ImageBrush, BrushError>)
    ensures
        final(dec)@ == old(dec)@,
        item_view(r) == brush_body(
            old(dec)@.data,
            old(dec).rdr.offset() as int,
            old(dec)@.version,
        ),
{
    let ty: u16 = match dec.rdr.read_u16_be() {
        Ok(ty) => ty,
        Err(e) => {
            return Err(BrushError::IoError(e));
        },
    };
    if ty != SAMPLED_BRUSH {
        return Err(BrushError::UnsupportedBrushType { ty });
    }
    match skip_preamble(&mut dec.rdr, dec.version) {
        Ok(()) => {},
        Err(e) => {
            return Err(BrushError::IoError(e));
        },
    }
    let bounds: Bounds = match read_bounds(&mut dec.rdr) {
        Ok(bounds) => bounds,
        Err(e) => {
            return Err(BrushError::IoError(e));
        },
    };
    let depth: u16 = match dec.rdr.read_u16_be() {
        Ok(depth) => depth,
        Err(e) => {
            return Err(BrushError::IoError(e));
        },
    };
    if depth != SUPPORTED_DEPTH {
        return Err(BrushError::UnsupportedBitDepth { depth });
    }
    let compressed: bool = match dec.rdr.read_u8() {
        Ok(flag) => flag != 0,
        Err(e) => {
            return Err(BrushError::IoError(e));
        },
    };
    read_image(&mut dec.rdr, bounds, compressed)
}

/// The state of the decoder after `n` steps from state `s`.
pub open spec fn state_after(s: DecoderState, n: nat) -> DecoderState
    decreases n,
{
    if n == 0 {
        s
    } else {
        step(state_after(s, (n - 1) as nat)).1
    }
}

/// All that the decoder yields from state `s` on, in order.
pub open spec fn remaining_items(s: DecoderState) -> Seq<Result<BrushModel, BrushError>>
    decreases s.count,
{
    match step(s).0 {
        Some(item) => seq![item] + remaining_items(step(s).1),
        None => Seq::empty(),
    }
}

/// Whether every record that is still to come can be located.
pub open spec fn records_in_place(s: DecoderState) -> bool
    decreases s.count,
{
    s.count == 0 || (brush_head(s.data, s.next_brush_pos as int) is Ok && records_in_place(
        step(s).1,
    ))
}

/// A step changes neither the bytes nor the version, never adds to the
/// number of records to come, and never moves back in the stream.
pub proof fn lemma_step_moves_forward(s: DecoderState)
    ensures
        step(s).1.data == s.data,
        step(s).1.version == s.version,
        step(s).1.count <= s.count,
        step(s).1.next_brush_pos >= s.next_brush_pos,
        step(s).0 is Some ==> step(s).1.count < s.count,
        step(s).0 is Some <==> s.count > 0,
{
}

/// Once the decoder yields nothing it stays as it is, and so yields nothing
/// ever after.
pub proof fn lemma_exhaustion_is_final(s: DecoderState, n: nat)
    requires
        step(s).0 is None,
    ensures
        state_after(s, n) == s,
        step(state_after(s, n)).0 is None,
    decreases n,
{
    if n > 0 {
        lemma_exhaustion_is_final(s, (n - 1) as nat);
    }
}

/// A record that cannot be located ends the sequence: the failure is
/// yielded, and nothing after it.
pub proof fn lemma_locate_failure_is_last(s: DecoderState, n: nat)
    requires
        s.count > 0,
        brush_head(s.data, s.next_brush_pos as int) is Err,
    ensures
        step(s).0 == Some(
            Err::<BrushModel, BrushError>(
                BrushError::IoError(brush_head(s.data, s.next_brush_pos as int)->Err_0),
            ),
        ),
        step(state_after(step(s).1, n)).0 is None,
        remaining_items(s).len() == 1,
{
    lemma_exhaustion_is_final(step(s).1, n);
    assert(remaining_items(step(s).1) =~= Seq::empty());
}

/// A record that is located but cannot be decoded does not end the
/// sequence: the decoder moves on to the record behind it as if the brush
/// had been decoded.
pub proof fn lemma_body_failure_goes_on(s: DecoderState)
    requires
        s.count > 0,
        brush_head(s.data, s.next_brush_pos as int) is Ok,
    ensures
        step(s).0 == Some(brush_body(s.data, s.next_brush_pos + 2, s.version)),
        step(s).1.count == s.count - 1,
        step(s).1.next_brush_pos == brush_head(s.data, s.next_brush_pos as int)->Ok_0,
        s.count > 1 ==> step(step(s).1).0 is Some,
{
}

/// The decoder never yields more items than the header declares.
pub proof fn lemma_yields_at_most_declared_count(s: DecoderState)
    ensures
        remaining_items(s).len() <= s.count,
    decreases s.count,
{
    if s.count > 0 {
        lemma_yields_at_most_declared_count(step(s).1);
    }
}

/// A stream whose records can all be located yields exactly as many items
/// as the header declares, brushes or failures to decode one, and then
/// nothing.
pub proof fn lemma_yields_declared_count(s: DecoderState)
    requires
        records_in_place(s),
    ensures
        remaining_items(s).len() == s.count,
        forall|k: nat| k < s.count ==> step(#[trigger] state_after(s, k)).0 is Some,
        step(state_after(s, s.count as nat)).0 is None,
    decreases s.count,
{
    if s.count > 0 {
        let next = step(s).1;
        lemma_yields_declared_count(next);
        assert forall|k: nat| k < s.count implies step(#[trigger] state_after(s, k)).0 is Some by {
            if k > 0 {
                lemma_state_after_shifts(s, (k - 1) as nat);
            }
        }
        lemma_state_after_shifts(s, (s.count - 1) as nat);
    }
}

/// `n + 1` steps are one step and then `n` more.
pub proof fn lemma_state_after_shifts(s: DecoderState, n: nat)
    ensures
        state_after(s, n + 1) == state_after(step(s).1, n),
    decreases n,
{
    if n > 0 {
        lemma_state_after_shifts(s, (n - 1) as nat);
        assert(state_after(s, n + 1) == step(state_after(s, n)).1);
        assert(state_after(step(s).1, n) == step(state_after(step(s).1, (n - 1) as nat)).1);
    } else {
        assert(state_after(s, 0) == s);
        assert(state_after(s, 1) == step(state_after(s, 0)).1);
    }
}

} // verus!

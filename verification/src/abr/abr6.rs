//! The resource-section layout of versions 6 and 10: tagged blocks are
//! scanned for the sample section, which holds records aligned to 4 bytes,
//! each a big-endian 32-bit length followed by that many bytes.

use super::cursor::{readable, u16_at, u32_at, u8_at, ByteCursor};
use super::err::{BrushError, IoError, OpenError};
use super::image::{
    item_view, next_view, read_image, stored_image, Bounds, BrushModel, ImageBrush,
    SUPPORTED_DEPTH,
};
use super::util;
use vstd::prelude::*;

verus! {

/// The bytes `8bim`, read as a big-endian number.
pub const TAG_8BIM: u32 = 0x3862_696d;

/// The bytes `samp`, read as a big-endian number.
pub const TAG_SAMP: u32 = 0x7361_6d70;

/// The bytes that a record of subversion 1 holds before its bounding box.
pub const SKIP_SUBVERSION_1: i64 = 47;

/// The bytes that a record of any other subversion holds before its
/// bounding box.
pub const SKIP_SUBVERSION_2: i64 = 301;

/// Decoder state for the resource-section layout.
pub struct Decoder {
    rdr: ByteCursor,
    #[allow(dead_code)]
    version: u16,
    subversion: u16,
    sample_section_end: u64,
    next_brush_pos: u64,
}

/// What a decoder of the resource-section layout stands for: the bytes,
/// the version and subversion, the offset at which the sample section ends
/// and the offset of the next record.
pub struct DecoderState {
    pub data: Seq<u8>,
    pub version: u16,
    pub subversion: u16,
    pub sample_section_end: u64,
    pub next_brush_pos: u64,
}

impl View for Decoder {
    type V = DecoderState;

    closed spec fn view(&self) -> DecoderState {
        DecoderState {
            data: self.rdr.bytes(),
            version: self.version,
            subversion: self.subversion,
            sample_section_end: self.sample_section_end,
            next_brush_pos: self.next_brush_pos,
        }
    }
}

/// Whether the four bytes at offset `p` spell `8bim`.
pub open spec fn is_8bim(data: Seq<u8>, p: int) -> bool {
    data[p] == 0x38 && data[p + 1] == 0x62 && data[p + 2] == 0x69 && data[p + 3] == 0x6d
}

/// Whether the four bytes at offset `p` spell `samp`.
pub open spec fn is_samp(data: Seq<u8>, p: int) -> bool {
    data[p] == 0x73 && data[p + 1] == 0x61 && data[p + 2] == 0x6d && data[p + 3] == 0x70
}

/// The offset behind the `samp` tag that the scan from offset `p` finds.
///
/// A block is two tags and a 32-bit length, followed by as many bytes as
/// the length says. The scan fails on a block whose first tag is `8bim`,
/// stops at a block whose second tag is `samp`, and steps over any other
/// block.
pub open spec fn sample_section(data: Seq<u8>, p: int) -> Result<int, OpenError>
    decreases
            if p <= data.len() {
                data.len() - p
            } else {
                0
            },
{
    if !readable(data, p, 4) {
        Err(OpenError::IoError(IoError::UnexpectedEof))
    } else if is_8bim(data, p) {
        Err(OpenError::Found8bim)
    } else if !readable(data, p + 4, 4) {
        Err(OpenError::IoError(IoError::UnexpectedEof))
    } else if is_samp(data, p + 4) {
        Ok(p + 8)
    } else if !readable(data, p + 8, 4) {
        Err(OpenError::IoError(IoError::UnexpectedEof))
    } else if p + 12 + u32_at(data, p + 8) > u64::MAX {
        Err(OpenError::IoError(IoError::InvalidSeek))
    } else {
        sample_section(data, p + 12 + u32_at(data, p + 8))
    }
}

/// The decoder that opening at offset `p` gives: the sample section is
/// found, its 32-bit length says where it ends, and its first record
/// follows the length.
pub open spec fn opened(data: Seq<u8>, p: int, version: u16, subversion: u16) -> Result<
    DecoderState,
    OpenError,
> {
    match sample_section(data, p) {
        Ok(section) => if !readable(data, section, 4) {
            Err(OpenError::IoError(IoError::UnexpectedEof))
        } else if section + 4 + u32_at(data, section) > u64::MAX {
            Err(OpenError::IoError(IoError::InvalidSeek))
        } else {
            Ok(
                DecoderState {
                    data,
                    version,
                    subversion,
                    sample_section_end: (section + 4 + u32_at(data, section)) as u64,
                    next_brush_pos: (section + 4) as u64,
                },
            )
        },
        Err(e) => Err(e),
    }
}

/// `x` rounded up to a multiple of 4.
pub open spec fn align4(x: int) -> int {
    (x + 3) / 4 * 4
}

/// `align4(x)` is the least multiple of 4 that is not below `x`.
pub proof fn lemma_align4_is_least(x: int, m: int)
    requires
        0 <= x,
    ensures
        align4(x) % 4 == 0,
        x <= align4(x) < x + 4,
        m % 4 == 0 && x <= m ==> align4(x) <= m,
{
}

/// Where the record behind the one at offset `pos` starts: behind the
/// length field and as many bytes as it says, rounded up to a multiple of
/// 4.
pub open spec fn brush_head(data: Seq<u8>, pos: int) -> Result<u64, IoError> {
    if !readable(data, pos, 4) {
        Err(IoError::UnexpectedEof)
    } else if align4(pos + 4 + u32_at(data, pos)) > u64::MAX {
        Err(IoError::InvalidSeek)
    } else {
        Ok(align4(pos + 4 + u32_at(data, pos)) as u64)
    }
}

/// The number of bytes between the length field of a record and its
/// bounding box.
pub open spec fn skip_amount(subversion: u16) -> int {
    if subversion == 1 {
        SKIP_SUBVERSION_1 as int
    } else {
        SKIP_SUBVERSION_2 as int
    }
}

/// The bounding box stored at offset `p`: four 32-bit values.
pub open spec fn bounds_at(data: Seq<u8>, p: int) -> Bounds {
    Bounds {
        top: u32_at(data, p),
        left: u32_at(data, p + 4),
        bottom: u32_at(data, p + 8),
        right: u32_at(data, p + 12),
    }
}

/// The brush in the record whose body starts at offset `p`, right behind
/// its length field: bytes that are not looked at, the bounding box, the
/// depth, the compression flag and the samples.
pub open spec fn brush_body(data: Seq<u8>, p: int, subversion: u16) -> Result<
    BrushModel,
    BrushError,
> {
    let q = p + skip_amount(subversion);
    if q > u64::MAX {
        Err(BrushError::IoError(IoError::InvalidSeek))
    } else if !readable(data, q, 18) {
        Err(BrushError::IoError(IoError::UnexpectedEof))
    } else if u16_at(data, q + 16) != SUPPORTED_DEPTH {
        Err(BrushError::UnsupportedBitDepth { depth: u16_at(data, q + 16) })
    } else if !readable(data, q + 18, 1) {
        Err(BrushError::IoError(IoError::UnexpectedEof))
    } else {
        stored_image(data, q + 19, bounds_at(data, q), u8_at(data, q + 18) != 0)
    }
}

/// One step of the decoder: what it yields and the state it is left in.
///
/// With the next record at or behind the end of the sample section it
/// yields nothing and stays as it is. Else the next record is located.
/// Where that fails the failure is yielded and the decoder moves to the end
/// of the section. Where it succeeds the decoder moves on to the record
/// behind, whatever decoding the located record gives.
pub open spec fn step(s: DecoderState) -> (Option<Result<BrushModel, BrushError>>, DecoderState) {
    if s.next_brush_pos >= s.sample_section_end {
        (None, s)
    } else {
        match brush_head(s.data, s.next_brush_pos as int) {
            Ok(next) => (
                Some(brush_body(s.data, s.next_brush_pos + 4, s.subversion)),
                DecoderState { next_brush_pos: next, ..s },
            ),
            Err(e) => (
                Some(Err(BrushError::IoError(e))),
                DecoderState { next_brush_pos: s.sample_section_end, ..s },
            ),
        }
    }
}

/// Moves the cursor behind the `samp` tag of the sample section.
fn find_sample_section(rdr: &mut ByteCursor) -> (r: Result<(), OpenError>)
    ensures
        final(rdr).bytes() == old(rdr).bytes(),
        match sample_section(old(rdr).bytes(), old(rdr).offset() as int) {
            Ok(section) => r is Ok && final(rdr).offset() == section,
            Err(e) => r == Err::<(), OpenError>(e),
        },
{
    let ghost data = rdr.bytes();
    let ghost start = rdr.offset() as int;
    loop
        invariant
            data == old(rdr).bytes(),
            start == old(rdr).offset(),
            rdr.bytes() == data,
            sample_section(data, start) == sample_section(data, rdr.offset() as int),
        decreases
                if rdr.offset() <= data.len() {
                    data.len() - rdr.offset()
                } else {
                    0
                },
    {
        let ghost here = rdr.offset() as int;
        let first: u32 = match rdr.read_u32_be() {
            Ok(tag) => tag,
            Err(e) => {
                return Err(OpenError::IoError(e));
            },
        };
        assert(first == TAG_8BIM <==> is_8bim(data, here));
        if first == TAG_8BIM {
            return Err(OpenError::Found8bim);
        }
        let second: u32 = match rdr.read_u32_be() {
            Ok(tag) => tag,
            Err(e) => {
                return Err(OpenError::IoError(e));
            },
        };
        assert(second == TAG_SAMP <==> is_samp(data, here + 4));
        if second == TAG_SAMP {
            return Ok(());
        }
        let len: u32 = match rdr.read_u32_be() {
            Ok(len) => len,
            Err(e) => {
                return Err(OpenError::IoError(e));
            },
        };
        match rdr.seek_by(len as i64) {
            Ok(_) => {},
            Err(e) => {
                return Err(OpenError::IoError(e));
            },
        }
    }
}

/// A decoder for the sample section that the scan from the cursor finds.
pub fn open(rdr: ByteCursor, version: u16, subversion: u16) -> (r: Result<Decoder, OpenError>)
    ensures
        match opened(rdr.bytes(), rdr.offset() as int, version, subversion) {
            Ok(state) => r is Ok && r->Ok_0@ == state,
            Err(e) => r is Err && r->Err_0 == e,
        },
{
    let mut rdr = rdr;
    // Find the sample section
    match find_sample_section(&mut rdr) {
        Ok(()) => {},
        Err(e) => {
            return Err(e);
        },
    }
    let len: u32 = match rdr.read_u32_be() {
        Ok(len) => len,
        Err(e) => {
            return Err(OpenError::IoError(e));
        },
    };
    let cur: u64 = match util::tell(&mut rdr) {
        Ok(cur) => cur,
        Err(e) => {
            return Err(OpenError::IoError(e));
        },
    };
    let sample_section_end: u64 = match rdr.offset_after(len as u64) {
        Ok(end) => end,
        Err(e) => {
            return Err(OpenError::IoError(e));
        },
    };
    Ok(Decoder { rdr, version, subversion, sample_section_end, next_brush_pos: cur })
}

/// Decodes the next brush, if one is to come.
pub fn next_brush(dec: &mut Decoder) -> (r: Option<Result<ImageBrush, BrushError>>)
    ensures
        (next_view(r), final(dec)@) == step(old(dec)@),
        r is None <==> old(dec)@.next_brush_pos >= old(dec)@.sample_section_end,
{
    // Is iteration over?
    if dec.next_brush_pos >= dec.sample_section_end {
        return None;
    }
    Some(
        match do_brush_head(dec) {
            Ok(next_brush_pos) => {
                dec.next_brush_pos = next_brush_pos;
                do_brush_body(dec)
            },
            Err(e) => {
                // The next brush's position is unknown, so there is no
                // going on from here: the iteration is over.
                dec.next_brush_pos = dec.sample_section_end;
                Err(BrushError::IoError(e))
            },
        },
    )
}

/// Moves `dec` into position to read out the next brush with
/// `do_brush_body`. Returns where the brush after this one is located.
fn do_brush_head(dec: &mut Decoder) -> (r: Result<u64, IoError>)
    ensures
        final(dec)@ == old(dec)@,
        r == brush_head(old(dec)@.data, old(dec)@.next_brush_pos as int),
        r is Ok ==> final(dec).rdr.offset() == old(dec)@.next_brush_pos + 4,
{
    let brush_pos: u64 = dec.next_brush_pos;
    dec.rdr.seek_to(brush_pos);

    let len: u32 = dec.rdr.read_u32_be()?;
    // We are now at brush_pos + 4
    let end_pos: u64 = dec.rdr.offset_after(len as u64)?;
    // Brushes are aligned to 4-byte boundaries; round up to get to one.
    let past: u64 = end_pos % 4;
    if past == 0 {
        Ok(end_pos)
    } else if end_pos > u64::MAX - (4 - past) {
        Err(IoError::InvalidSeek)
    } else {
        Ok(end_pos + (4 - past))
    }
}

/// Reads a bounding box of four 32-bit values.
fn read_bounds(rdr: &mut ByteCursor) -> (r: Result<Bounds, IoError>)
    ensures
        final(rdr).bytes() == old(rdr).bytes(),
        readable(old(rdr).bytes(), old(rdr).offset() as int, 16) ==> r == Ok::<Bounds, IoError>(
            bounds_at(old(rdr).bytes(), old(rdr).offset() as int),
        ) && final(rdr).offset() == old(rdr).offset() + 16,
        !readable(old(rdr).bytes(), old(rdr).offset() as int, 16) ==> r == Err::<
            Bounds,
            IoError,
        >(IoError::UnexpectedEof),
{
    let top: u32 = rdr.read_u32_be()?;
    let left: u32 = rdr.read_u32_be()?;
    let bottom: u32 = rdr.read_u32_be()?;
    let right: u32 = rdr.read_u32_be()?;
    Ok(Bounds { top, left, bottom, right })
}

/// With `dec` positioned by `do_brush_head`, reads out a brush.
fn do_brush_body(dec: &mut Decoder) -> (r: Result<ImageBrush, BrushError>)
    ensures
        final(dec)@ == old(dec)@,
        item_view(r) == brush_body(
            old(dec)@.data,
            old(dec).rdr.offset() as int,
            old(dec)@.subversion,
        ),
{
    // Skip over a region whose meaning is not known.
    let skip_amt: i64 = if dec.subversion == 1 {
        SKIP_SUBVERSION_1
    } else {
        SKIP_SUBVERSION_2
    };
    match dec.rdr.seek_by(skip_amt) {
        Ok(_) => {},
        Err(e) => {
            return Err(BrushError::IoError(e));
        },
    }
    let bounds: Bounds = match read_bounds(&mut dec.rdr) {
        Ok(bounds) => bounds,
        Err(e) => {
            return Err(BrushError::IoError(e));
        },
    };
    let depth: u16 = match dec.rdr.read_u16_be() {
        Ok(depth) => depth,
        Err(e) => {
            return Err(BrushError::IoError(e));
        },
    };
    if depth != SUPPORTED_DEPTH {
        return Err(BrushError::UnsupportedBitDepth { depth });
    }
    let compressed: bool = match dec.rdr.read_u8() {
        Ok(flag) => flag != 0,
        Err(e) => {
            return Err(BrushError::IoError(e));
        },
    };
    read_image(&mut dec.rdr, bounds, compressed)
}

/// The number of bytes between the next record and the end of the sample
/// section.
pub open spec fn distance_to_end(s: DecoderState) -> nat {
    if s.next_brush_pos < s.sample_section_end {
        (s.sample_section_end - s.next_brush_pos) as nat
    } else {
        0
    }
}

/// The state of the decoder after `n` steps from state `s`.
pub open spec fn state_after(s: DecoderState, n: nat) -> DecoderState
    decreases n,
{
    if n == 0 {
        s
    } else {
        step(state_after(s, (n - 1) as nat)).1
    }
}

/// All that the decoder yields from state `s` on, in order.
pub open spec fn remaining_items(s: DecoderState) -> Seq<Result<BrushModel, BrushError>>
    decreases distance_to_end(s),
{
    match step(s).0 {
        Some(item) => seq![item] + remaining_items(step(s).1),
        None => Seq::empty(),
    }
}

/// The decoder yields nothing exactly when the next record lies at or
/// behind the end of the sample section; it then decodes nothing and stays
/// as it is. Any other step moves it forward, and no step changes the
/// bytes, the subversion or the end of the section.
pub proof fn lemma_stops_at_section_end(s: DecoderState)
    ensures
        step(s).0 is None <==> s.next_brush_pos >= s.sample_section_end,
        step(s).0 is None ==> step(s).1 == s,
        step(s).0 is Some ==> step(s).1.next_brush_pos > s.next_brush_pos,
        step(s).0 is Some ==> distance_to_end(step(s).1) < distance_to_end(s),
        step(s).1.data == s.data,
        step(s).1.version == s.version,
        step(s).1.subversion == s.subversion,
        step(s).1.sample_section_end == s.sample_section_end,
{
}

/// However many steps were taken, the decoder yields nothing exactly when
/// the next record lies at or behind the end of the sample section that
/// was found on opening.
pub proof fn lemma_stops_at_section_end_after(s: DecoderState, n: nat)
    ensures
        state_after(s, n).sample_section_end == s.sample_section_end,
        state_after(s, n).data == s.data,
        state_after(s, n).next_brush_pos >= s.next_brush_pos,
        step(state_after(s, n)).0 is None <==> state_after(s, n).next_brush_pos
            >= s.sample_section_end,
    decreases n,
{
    if n > 0 {
        lemma_stops_at_section_end_after(s, (n - 1) as nat);
        lemma_stops_at_section_end(state_after(s, (n - 1) as nat));
    }
}

/// Once the decoder yields nothing it stays as it is, and so yields nothing
/// ever after.
pub proof fn lemma_exhaustion_is_final(s: DecoderState, n: nat)
    requires
        step(s).0 is None,
    ensures
        state_after(s, n) == s,
        step(state_after(s, n)).0 is None,
    decreases n,
{
    if n > 0 {
        lemma_exhaustion_is_final(s, (n - 1) as nat);
    }
}

/// The sequence is finite: it has come to its end after as many steps as
/// there are bytes between the next record and the end of the section, if
/// not before.
pub proof fn lemma_sequence_is_finite(s: DecoderState)
    ensures
        step(state_after(s, distance_to_end(s))).0 is None,
        remaining_items(s).len() <= distance_to_end(s),
    decreases distance_to_end(s),
{
    let d = distance_to_end(s);
    if d > 0 {
        let next = step(s).1;
        lemma_stops_at_section_end(s);
        lemma_sequence_is_finite(next);
        let e = distance_to_end(next);
        // `next` is exhausted after `e` steps, and stays so for `d - 1 - e`
        // more.
        lemma_state_after_adds(next, e, (d - 1 - e) as nat);
        lemma_exhaustion_is_final(state_after(next, e), (d - 1 - e) as nat);
        lemma_state_after_shifts(s, (d - 1) as nat);
    }
}

/// A record that cannot be located ends the sequence: the failure is
/// yielded, and nothing after it.
pub proof fn lemma_locate_failure_is_last(s: DecoderState, n: nat)
    requires
        s.next_brush_pos < s.sample_section_end,
        brush_head(s.data, s.next_brush_pos as int) is Err,
    ensures
        step(s).0 == Some(
            Err::<BrushModel, BrushError>(
                BrushError::IoError(brush_head(s.data, s.next_brush_pos as int)->Err_0),
            ),
        ),
        step(state_after(step(s).1, n)).0 is None,
        remaining_items(s).len() == 1,
{
    lemma_exhaustion_is_final(step(s).1, n);
    assert(remaining_items(step(s).1) =~= Seq::empty());
}

/// A record that is located but cannot be decoded does not end the
/// sequence: the decoder moves on to the record behind it as if the brush
/// had been decoded.
pub proof fn lemma_body_failure_goes_on(s: DecoderState)
    requires
        s.next_brush_pos < s.sample_section_end,
        brush_head(s.data, s.next_brush_pos as int) is Ok,
    ensures
        step(s).0 == Some(brush_body(s.data, s.next_brush_pos + 4, s.subversion)),
        step(s).1.next_brush_pos == brush_head(s.data, s.next_brush_pos as int)->Ok_0,
        step(s).1.next_brush_pos < s.sample_section_end ==> step(step(s).1).0 is Some,
{
}

/// `n + 1` steps are one step and then `n` more.
pub proof fn lemma_state_after_shifts(s: DecoderState, n: nat)
    ensures
        state_after(s, n + 1) == state_after(step(s).1, n),
    decreases n,
{
    if n > 0 {
        lemma_state_after_shifts(s, (n - 1) as nat);
        assert(state_after(s, n + 1) == step(state_after(s, n)).1);
        assert(state_after(step(s).1, n) == step(state_after(step(s).1, (n - 1) as nat)).1);
    } else {
        assert(state_after(s, 0) == s);
        assert(state_after(s, 1) == step(state_after(s, 0)).1);
    }
}

/// `n + m` steps are `n` steps and then `m` more.
pub proof fn lemma_state_after_adds(s: DecoderState, n: nat, m: nat)
    ensures
        state_after(s, n + m) == state_after(state_after(s, n), m),
    decreases m,
{
    if m > 0 {
        lemma_state_after_adds(s, n, (m - 1) as nat);
        assert(state_after(s, n + m) == step(state_after(s, (n + m - 1) as nat)).1);
    }
}

} // verus!

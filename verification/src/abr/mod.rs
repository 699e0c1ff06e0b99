//! The brush decoder: the header, the dispatch on it, and the sequence of
//! brushes behind both layouts.

pub mod abr12;
pub mod abr6;
pub mod cursor;
pub mod err;
pub mod helper;
pub mod image;
pub mod util;

pub use self::cursor::ByteCursor;
pub use self::err::{BrushError, IoError, OpenError};
pub use self::image::{Bounds, BrushModel, ImageBrush};
use self::cursor::{bytes_at, readable, u16_at};
use self::image::{item_view, next_view};
use vstd::prelude::*;

verus! {

/// What the two header fields mean, which depends on the first of them.
#[derive(Debug, Clone, Copy, PartialEq, Eq, Structural)]
pub enum FormatHeader {
    /// Versions 1 and 2: the second field counts the brushes.
    Flat { version: u16, count: u16 },
    /// Versions 6 and 10: the second field selects the record layout.
    Sectioned { version: u16, subversion: u16 },
}

/// The meaning of the header fields `version` and `subversion`.
pub open spec fn header_of(version: u16, subversion: u16) -> Result<FormatHeader, OpenError> {
    if version == 1 || version == 2 {
        Ok(FormatHeader::Flat { version, count: subversion })
    } else if (version == 6 || version == 10) && (subversion == 1 || subversion == 2) {
        Ok(FormatHeader::Sectioned { version, subversion })
    } else {
        Err(OpenError::UnsupportedVersion { version, subversion })
    }
}

/// Tells what the header fields `version` and `subversion` mean.
pub fn parse_header(version: u16, subversion: u16) -> (r: Result<FormatHeader, OpenError>)
    ensures
        r == header_of(version, subversion),
{
    let abr1_like = version == 1 || version == 2;
    let abr6_like = (version == 6 || version == 10) && (subversion == 1 || subversion == 2);

    if abr1_like {
        Ok(FormatHeader::Flat { version, count: subversion })
    } else if abr6_like {
        Ok(FormatHeader::Sectioned { version, subversion })
    } else {
        Err(OpenError::UnsupportedVersion { version, subversion })
    }
}

enum Decoder {
    Abr1(abr12::Decoder),
    Abr6(abr6::Decoder),
}

/// The image brushes of an ABR file, one after the other.
pub struct Brushes(Decoder);

/// What a sequence of brushes stands for: the state of the decoder of its
/// layout.
pub enum BrushesState {
    Abr1(abr12::DecoderState),
    Abr6(abr6::DecoderState),
}

impl View for Brushes {
    type V = BrushesState;

    closed spec fn view(&self) -> BrushesState {
        match self.0 {
            Decoder::Abr1(dec) => BrushesState::Abr1(dec@),
            Decoder::Abr6(dec) => BrushesState::Abr6(dec@),
        }
    }
}

/// The sequence that opening a file at offset `p` gives: the header is
/// read, and the decoder of the layout that it names starts right behind
/// it.
pub open spec fn opened(data: Seq<u8>, p: int) -> Result<BrushesState, OpenError> {
    if !readable(data, p, 4) {
        Err(OpenError::IoError(IoError::UnexpectedEof))
    } else {
        match header_of(u16_at(data, p), u16_at(data, p + 2)) {
            Ok(FormatHeader::Flat { version, count }) => Ok(
                BrushesState::Abr1(
                    abr12::DecoderState { data, version, count, next_brush_pos: (p + 4) as u64 },
                ),
            ),
            Ok(FormatHeader::Sectioned { version, subversion }) => match abr6::opened(
                data,
                p + 4,
                version,
                subversion,
            ) {
                Ok(state) => Ok(BrushesState::Abr6(state)),
                Err(e) => Err(e),
            },
            Err(e) => Err(e),
        }
    }
}

/// Two streams with the same four header bytes at offset `p` have the same
/// header fields.
proof fn lemma_same_header(data: Seq<u8>, other: Seq<u8>, p: int)
    requires
        readable(data, p, 4),
        readable(other, p, 4),
        bytes_at(data, p, 4) == bytes_at(other, p, 4),
    ensures
        u16_at(data, p) == u16_at(other, p),
        u16_at(data, p + 2) == u16_at(other, p + 2),
{
    let head = bytes_at(data, p, 4);
    let other_head = bytes_at(other, p, 4);
    assert(head[0] == data[p + 0] && other_head[0] == other[p + 0]);
    assert(head[1] == data[p + 1] && other_head[1] == other[p + 1]);
    assert(head[2] == data[p + 2] && other_head[2] == other[p + 2]);
    assert(head[3] == data[p + 3] && other_head[3] == other[p + 3]);
}

/// A file of version 1 or 2 opens on its header alone: the decoder of the
/// flat layout is set up for as many brushes as the second header field
/// says, starting right behind the header, whatever follows it.
pub proof fn lemma_flat_open_needs_header_only(data: Seq<u8>, other: Seq<u8>, p: int)
    requires
        readable(data, p, 4),
        readable(other, p, 4),
        bytes_at(data, p, 4) == bytes_at(other, p, 4),
        u16_at(data, p) == 1 || u16_at(data, p) == 2,
    ensures
        opened(data, p) == Ok::<BrushesState, OpenError>(
            BrushesState::Abr1(
                abr12::DecoderState {
                    data,
                    version: u16_at(data, p),
                    count: u16_at(data, p + 2),
                    next_brush_pos: (p + 4) as u64,
                },
            ),
        ),
        opened(other, p) is Ok,
{
    lemma_same_header(data, other, p);
}

/// A file of version 6 or 10 with subversion 1 or 2 opens as the scan for
/// the sample section behind the header decides.
pub proof fn lemma_sectioned_open_scans(data: Seq<u8>, p: int)
    requires
        readable(data, p, 4),
        u16_at(data, p) == 6 || u16_at(data, p) == 10,
        u16_at(data, p + 2) == 1 || u16_at(data, p + 2) == 2,
    ensures
        match abr6::opened(data, p + 4, u16_at(data, p), u16_at(data, p + 2)) {
            Ok(state) => opened(data, p) == Ok::<BrushesState, OpenError>(
                BrushesState::Abr6(state),
            ),
            Err(e) => opened(data, p) == Err::<BrushesState, OpenError>(e),
        },
{
}

/// A version that is not supported is reported from the header alone,
/// with both header fields, whatever follows the header.
pub proof fn lemma_unsupported_version_needs_header_only(
    data: Seq<u8>,
    other: Seq<u8>,
    p: int,
)
    requires
        readable(data, p, 4),
        readable(other, p, 4),
        bytes_at(data, p, 4) == bytes_at(other, p, 4),
        header_of(u16_at(data, p), u16_at(data, p + 2)) is Err,
    ensures
        opened(data, p) == Err::<BrushesState, OpenError>(
            OpenError::UnsupportedVersion {
                version: u16_at(data, p),
                subversion: u16_at(data, p + 2),
            },
        ),
        opened(other, p) == opened(data, p),
{
    lemma_same_header(data, other, p);
}

/// One step of a sequence: what it yields and the state it is left in.
pub open spec fn step(s: BrushesState) -> (Option<Result<BrushModel, BrushError>>, BrushesState) {
    match s {
        BrushesState::Abr1(dec) => (abr12::step(dec).0, BrushesState::Abr1(abr12::step(dec).1)),
        BrushesState::Abr6(dec) => (abr6::step(dec).0, BrushesState::Abr6(abr6::step(dec).1)),
    }
}

/// Gets the sequence of image brushes in the ABR file that `rdr` stands at
/// the start of.
pub fn open(rdr: ByteCursor) -> (r: Result<Brushes, OpenError>)
    ensures
        match opened(rdr.bytes(), rdr.offset() as int) {
            Ok(state) => r is Ok && r->Ok_0@ == state,
            Err(e) => r is Err && r->Err_0 == e,
        },
{
    let mut rdr = rdr;
    let version: u16 = match rdr.read_u16_be() {
        Ok(version) => version,
        Err(e) => {
            return Err(OpenError::IoError(e));
        },
    };
    let subversion: u16 = match rdr.read_u16_be() {
        Ok(subversion) => subversion,
        Err(e) => {
            return Err(OpenError::IoError(e));
        },
    };
    match parse_header(version, subversion) {
        Ok(FormatHeader::Flat { version, count }) => {
            match abr12::open(rdr, version, count) {
                Ok(dec) => Ok(Brushes(Decoder::Abr1(dec))),
                Err(e) => Err(e),
            }
        },
        Ok(FormatHeader::Sectioned { version, subversion }) => {
            match abr6::open(rdr, version, subversion) {
                Ok(dec) => Ok(Brushes(Decoder::Abr6(dec))),
                Err(e) => Err(e),
            }
        },
        Err(e) => Err(e),
    }
}

/// A bound on the number of items that a sequence can still yield.
pub open spec fn steps_left(s: BrushesState) -> nat {
    match s {
        BrushesState::Abr1(dec) => dec.count as nat,
        BrushesState::Abr6(dec) => abr6::distance_to_end(dec),
    }
}

/// All that a sequence yields from state `s` on, in order.
pub open spec fn remaining_items(s: BrushesState) -> Seq<Result<BrushModel, BrushError>> {
    match s {
        BrushesState::Abr1(dec) => abr12::remaining_items(dec),
        BrushesState::Abr6(dec) => abr6::remaining_items(dec),
    }
}

/// Decoded items as mathematical values.
pub open spec fn items_view(items: Seq<Result<ImageBrush, BrushError>>) -> Seq<
    Result<BrushModel, BrushError>,
> {
    Seq::new(items.len(), |i: int| item_view(items[i]))
}

/// What a sequence yields is what its first step yields, if anything,
/// followed by what it yields from there on; and each item brings the
/// sequence nearer to its end.
pub proof fn lemma_remaining_items_unfold(s: BrushesState)
    ensures
        step(s).0 is None ==> remaining_items(s) == Seq::<
            Result<BrushModel, BrushError>,
        >::empty(),
        step(s).0 is Some ==> remaining_items(s) == seq![step(s).0->Some_0] + remaining_items(
            step(s).1,
        ) && steps_left(step(s).1) < steps_left(s),
{
    match s {
        BrushesState::Abr1(dec) => {
            abr12::lemma_step_moves_forward(dec);
        },
        BrushesState::Abr6(dec) => {
            abr6::lemma_stops_at_section_end(dec);
        },
    }
}

impl Brushes {
    /// Decodes the next brush, if one is to come.
    pub fn next(&mut self) -> (r: Option<Result<ImageBrush, BrushError>>)
        ensures
            (next_view(r), final(self)@) == step(old(self)@),
    {
        match &mut self.0 {
            Decoder::Abr6(dec) => abr6::next_brush(dec),
            Decoder::Abr1(dec) => abr12::next_brush(dec),
        }
    }

    /// Decodes all the brushes that are still to come, and leaves the
    /// sequence at its end.
    pub fn collect_remaining(&mut self) -> (r: Vec<Result<ImageBrush, BrushError>>)
        ensures
            items_view(r@) == remaining_items(old(self)@),
            step(final(self)@).0 is None,
    {
        let mut items: Vec<Result<ImageBrush, BrushError>> = Vec::new();
        assert(items_view(items@) + remaining_items(self@) =~= remaining_items(self@));
        loop
            invariant
                remaining_items(old(self)@) == items_view(items@) + remaining_items(self@),
            decreases steps_left(self@),
        {
            proof {
                lemma_remaining_items_unfold(self@);
            }
            let ghost before = items@;
            match self.next() {
                Some(item) => {
                    items.push(item);
                    assert(items_view(items@) + remaining_items(self@) =~= items_view(before) + (
                    seq![item_view(item)] + remaining_items(self@)));
                },
                None => {
                    return items;
                },
            }
        }
    }
}

} // verus!

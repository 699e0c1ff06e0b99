//! Decoded brushes, and the part of a record that both layouts share: the
//! bounding box and the samples behind it.

use super::cursor::{bytes_at, readable, ByteCursor};
use super::err::{BrushError, IoError};
use super::util::{read_rle_data, rle_data};
use vstd::prelude::*;

verus! {

/// The only sample depth that is decoded.
pub const SUPPORTED_DEPTH: u16 = 8;

/// An image brush.
#[derive(Debug, PartialEq, Eq)]
pub struct ImageBrush {
    /// Image width.
    pub width: u32,
    /// Image height.
    pub height: u32,
    /// Bit-depth (always 8, currently).
    pub depth: u16,
    /// Row-major vector of width x height image samples.
    pub data: Vec<u8>,
}

/// An image brush as a mathematical value.
pub struct BrushModel {
    pub width: u32,
    pub height: u32,
    pub depth: u16,
    pub data: Seq<u8>,
}

impl View for ImageBrush {
    type V = BrushModel;

    open spec fn view(&self) -> BrushModel {
        BrushModel { width: self.width, height: self.height, depth: self.depth, data: self.data@ }
    }
}

/// The number of bytes that the samples of an image take.
pub open spec fn sample_count(width: u32, height: u32, depth: u16) -> int {
    width * height * (depth / 8)
}

impl BrushModel {
    /// A brush holds exactly the samples that its extent and depth call for.
    pub open spec fn is_complete(self) -> bool {
        self.data.len() == sample_count(self.width, self.height, self.depth)
    }
}

/// The bounding box of a brush, as stored in its record.
#[derive(Debug, Clone, Copy, PartialEq, Eq, Structural)]
pub struct Bounds {
    pub top: u32,
    pub left: u32,
    pub bottom: u32,
    pub right: u32,
}

impl Bounds {
    /// Whether the box ends at or after the place where it starts.
    pub open spec fn is_ordered(self) -> bool {
        self.left <= self.right && self.top <= self.bottom
    }
}

/// The result of decoding one record, as a mathematical value.
pub open spec fn item_view(r: Result<ImageBrush, BrushError>) -> Result<BrushModel, BrushError> {
    match r {
        Ok(brush) => Ok(brush@),
        Err(e) => Err(e),
    }
}

/// The result of asking for the next brush, as a mathematical value.
pub open spec fn next_view(r: Option<Result<ImageBrush, BrushError>>) -> Option<
    Result<BrushModel, BrushError>,
> {
    match r {
        Some(item) => Some(item_view(item)),
        None => None,
    }
}

/// The samples of an 8-bit image of `width` by `height` stored from offset
/// `p` on, run-length compressed or raw. Compressed samples that do not
/// come to exactly `width * height` bytes are an error, as are raw samples
/// that end early.
pub open spec fn stored_samples(
    data: Seq<u8>,
    p: int,
    width: u32,
    height: u32,
    compressed: bool,
) -> Result<Seq<u8>, BrushError> {
    let size = sample_count(width, height, SUPPORTED_DEPTH);
    if compressed {
        match rle_data(data, p, height as nat) {
            Some((samples, end)) => if samples.len() == size {
                Ok(samples)
            } else {
                Err(
                    BrushError::SampleCountMismatch {
                        expected: size as u64,
                        actual: samples.len() as u64,
                    },
                )
            },
            None => Err(BrushError::IoError(IoError::UnexpectedEof)),
        }
    } else if readable(data, p, size) {
        Ok(bytes_at(data, p, size))
    } else {
        Err(BrushError::IoError(IoError::UnexpectedEof))
    }
}

/// The 8-bit image with bounding box `bounds` whose samples are stored from
/// offset `p` on. A box that ends before it starts is an error.
pub open spec fn stored_image(data: Seq<u8>, p: int, bounds: Bounds, compressed: bool) -> Result<
    BrushModel,
    BrushError,
> {
    if !bounds.is_ordered() {
        Err(
            BrushError::InvalidBounds {
                top: bounds.top,
                left: bounds.left,
                bottom: bounds.bottom,
                right: bounds.right,
            },
        )
    } else {
        let width = (bounds.right - bounds.left) as u32;
        let height = (bounds.bottom - bounds.top) as u32;
        match stored_samples(data, p, width, height, compressed) {
            Ok(samples) => Ok(
                BrushModel { width, height, depth: SUPPORTED_DEPTH, data: samples },
            ),
            Err(e) => Err(e),
        }
    }
}

/// Every image that can be decoded holds exactly the samples that its
/// extent calls for.
pub proof fn lemma_stored_image_is_complete(
    data: Seq<u8>,
    p: int,
    bounds: Bounds,
    compressed: bool,
)
    ensures
        stored_image(data, p, bounds, compressed) matches Ok(brush) ==> brush.is_complete()
            && brush.depth == SUPPORTED_DEPTH && brush.width == bounds.right - bounds.left
            && brush.height == bounds.bottom - bounds.top,
{
}

/// Reads the samples of an 8-bit image with bounding box `bounds` from the
/// cursor.
pub fn read_image(rdr: &mut ByteCursor, bounds: Bounds, compressed: bool) -> (r: Result<
    ImageBrush,
    BrushError,
>)
    ensures
        final(rdr).bytes() == old(rdr).bytes(),
        item_view(r) == stored_image(
            old(rdr).bytes(),
            old(rdr).offset() as int,
            bounds,
            compressed,
        ),
{
    if bounds.right < bounds.left || bounds.bottom < bounds.top {
        return Err(
            BrushError::InvalidBounds {
                top: bounds.top,
                left: bounds.left,
                bottom: bounds.bottom,
                right: bounds.right,
            },
        );
    }
    let width: u32 = bounds.right - bounds.left;
    let height: u32 = bounds.bottom - bounds.top;
    assert(width * height <= 0xffff_ffff * 0xffff_ffff) by (nonlinear_arith)
        requires
            width <= 0xffff_ffff,
            height <= 0xffff_ffff,
    ;
    let bytes_per_sample: u64 = (SUPPORTED_DEPTH / 8) as u64;
    assert(bytes_per_sample == 1);
    let size: u64 = (width as u64) * (height as u64) * bytes_per_sample;
    let data: Vec<u8> = if compressed {
        let hint: usize = if size <= usize::MAX as u64 {
            size as usize
        } else {
            usize::MAX
        };
        match read_rle_data(rdr, height, hint) {
            Ok(data) => {
                if data.len() as u64 != size {
                    return Err(
                        BrushError::SampleCountMismatch {
                            expected: size,
                            actual: data.len() as u64,
                        },
                    );
                }
                data
            },
            Err(e) => {
                return Err(BrushError::IoError(e));
            },
        }
    } else {
        match rdr.read_exact(size) {
            Ok(data) => data,
            Err(e) => {
                return Err(BrushError::IoError(e));
            },
        }
    };
    Ok(ImageBrush { width, height, depth: SUPPORTED_DEPTH, data })
}

} // verus!

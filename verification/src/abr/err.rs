//! Error values of the decoder.

use vstd::prelude::*;

verus! {

/// Why a cursor operation failed.
#[derive(Debug, Clone, Copy, PartialEq, Eq, Structural)]
pub enum IoError {
    /// Fewer bytes were left than the read asked for.
    UnexpectedEof,
    /// The offset asked for is negative or does not fit in 64 bits.
    InvalidSeek,
}

/// Why a container could not be opened.
#[derive(Debug, Clone, Copy, PartialEq, Eq, Structural)]
pub enum OpenError {
    /// The header names no layout that is understood.
    UnsupportedVersion { version: u16, subversion: u16 },
    /// An `8bim` block came before the sample section.
    Found8bim,
    /// The header or the resource blocks could not be read.
    IoError(IoError),
}

/// Why one brush record could not be decoded.
#[derive(Debug, Clone, Copy, PartialEq, Eq, Structural)]
pub enum BrushError {
    /// The samples are not 8 bits deep.
    UnsupportedBitDepth { depth: u16 },
    /// The record is not a sampled brush.
    UnsupportedBrushType { ty: u16 },
    /// The bounding box ends before it starts.
    InvalidBounds { top: u32, left: u32, bottom: u32, right: u32 },
    /// The decompressed samples do not fill the bounding box exactly.
    SampleCountMismatch { expected: u64, actual: u64 },
    /// The record could not be read.
    IoError(IoError),
}

} // verus!

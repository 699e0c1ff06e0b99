//! Decoder for Adobe ABR brush containers.
//!
//! The container comes in two families: a flat list of length-prefixed
//! records (versions 1 and 2) and a resource-section layout with 4-byte
//! aligned records (versions 6 and 10). Both are decoded from an in-memory
//! byte cursor, and every decoding function is specified as a function of
//! the bytes and the offset it starts from.

pub mod abr;

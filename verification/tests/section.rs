use abrupng::abr::abr6;
use abrupng::abr::{open, BrushError, ByteCursor, ImageBrush, IoError, OpenError};

fn be16(v: u16) -> Vec<u8> {
    vec![(v >> 8) as u8, v as u8]
}

fn be32(v: u32) -> Vec<u8> {
    vec![(v >> 24) as u8, (v >> 16) as u8, (v >> 8) as u8, v as u8]
}

/// The body of a record: everything behind its length field.
fn body(skip: usize, bounds: (u32, u32, u32, u32), depth: u16, compressed: u8, payload: &[u8]) -> Vec<u8> {
    let (top, left, bottom, right) = bounds;
    let mut b = vec![0x5a; skip];
    b.extend(be32(top));
    b.extend(be32(left));
    b.extend(be32(bottom));
    b.extend(be32(right));
    b.extend(be16(depth));
    b.push(compressed);
    b.extend_from_slice(payload);
    b
}

/// A file whose sample section holds `bodies`, each behind its length and
/// padded so that the next record starts at a multiple of 4. The section
/// is declared `slack` bytes longer than it is.
fn file(version: u16, subversion: u16, bodies: &[Vec<u8>], slack: i64) -> Vec<u8> {
    let mut f = be16(version);
    f.extend(be16(subversion));
    f.extend_from_slice(b"8BIMdesc");
    f.extend(be32(5));
    f.extend_from_slice(&[1, 2, 3, 4, 5]);
    f.extend_from_slice(b"8BIMsamp");
    let len_at = f.len();
    f.extend(be32(0));
    let section_start = f.len();
    for b in bodies {
        f.extend(be32(b.len() as u32));
        f.extend_from_slice(b);
        while f.len() % 4 != 0 {
            f.push(0xee);
        }
    }
    let len = (f.len() - section_start) as i64 + slack;
    f[len_at..len_at + 4].copy_from_slice(&be32(len as u32));
    f
}

fn raw_2x3(skip: usize) -> Vec<u8> {
    body(skip, (10, 20, 13, 22), 8, 0, &[1, 2, 3, 4, 5, 6])
}

fn brush_2x3() -> ImageBrush {
    ImageBrush { width: 2, height: 3, depth: 8, data: vec![1, 2, 3, 4, 5, 6] }
}

#[test]
fn subversion_1_skips_47_bytes() {
    let f = file(6, 1, &[raw_2x3(47)], 0);
    let mut brushes = open(ByteCursor::new(f)).unwrap();
    assert_eq!(brushes.next(), Some(Ok(brush_2x3())));
    assert_eq!(brushes.next(), None);
}

#[test]
fn subversion_2_skips_301_bytes() {
    let f = file(6, 2, &[raw_2x3(301)], 0);
    let mut brushes = open(ByteCursor::new(f)).unwrap();
    assert_eq!(brushes.next(), Some(Ok(brush_2x3())));
    assert_eq!(brushes.next(), None);
}

#[test]
fn version_10_is_read_like_version_6() {
    let f = file(10, 2, &[raw_2x3(301), raw_2x3(301)], 0);
    let mut brushes = open(ByteCursor::new(f)).unwrap();
    assert_eq!(brushes.collect_remaining(), vec![Ok(brush_2x3()), Ok(brush_2x3())]);
}

#[test]
fn records_are_aligned_to_4_bytes() {
    // Bodies of 47 + 19 + n bytes for n = 0..4 end at every offset modulo 4.
    let bodies: Vec<Vec<u8>> = (0..5u32)
        .map(|n| body(47, (0, 0, 1, n), 8, 0, &vec![n as u8; n as usize]))
        .collect();
    let f = file(6, 1, &bodies, 0);
    let mut brushes = open(ByteCursor::new(f)).unwrap();
    for n in 0..5u32 {
        assert_eq!(
            brushes.next(),
            Some(Ok(ImageBrush { width: n, height: 1, depth: 8, data: vec![n as u8; n as usize] }))
        );
    }
    assert_eq!(brushes.next(), None);
}

#[test]
fn sectioned_compressed_brush_is_unpacked() {
    let payload = [0, 2, 0, 2, 0xfe, 7, 0xfe, 8];
    let f = file(6, 1, &[body(47, (1, 1, 3, 4), 8, 1, &payload)], 0);
    let mut brushes = open(ByteCursor::new(f)).unwrap();
    assert_eq!(
        brushes.next(),
        Some(Ok(ImageBrush { width: 3, height: 2, depth: 8, data: vec![7, 7, 7, 8, 8, 8] }))
    );
}

#[test]
fn iteration_ends_at_the_declared_end_of_the_section() {
    // The section is declared to end inside the second record, so the
    // third one is never looked at.
    let bodies = [raw_2x3(47), raw_2x3(47), raw_2x3(47)];
    let one = 4 + raw_2x3(47).len() as i64;
    let second_at = (33 + one + 3) / 4 * 4;
    let whole = file(6, 1, &bodies, 0);
    let section = whole.len() as i64 - 33;
    let f = file(6, 1, &bodies, second_at + 1 - 33 - section);
    let mut brushes = open(ByteCursor::new(f)).unwrap();
    assert_eq!(brushes.next(), Some(Ok(brush_2x3())));
    assert_eq!(brushes.next(), Some(Ok(brush_2x3())));
    assert_eq!(brushes.next(), None);
    assert_eq!(brushes.next(), None);
}

#[test]
fn empty_section_yields_nothing() {
    let f = file(6, 1, &[], 0);
    let mut brushes = open(ByteCursor::new(f)).unwrap();
    assert_eq!(brushes.next(), None);
}

#[test]
fn section_that_runs_past_the_stream_latches() {
    let f = file(6, 1, &[raw_2x3(47)], 100);
    let mut brushes = open(ByteCursor::new(f)).unwrap();
    assert_eq!(brushes.next(), Some(Ok(brush_2x3())));
    assert_eq!(brushes.next(), Some(Err(BrushError::IoError(IoError::UnexpectedEof))));
    assert_eq!(brushes.next(), None);
    assert_eq!(brushes.next(), None);
}

#[test]
fn sectioned_unsupported_depth_does_not_stop_the_iteration() {
    let f = file(6, 1, &[body(47, (0, 0, 1, 1), 1, 0, &[9]), raw_2x3(47)], 0);
    let mut brushes = open(ByteCursor::new(f)).unwrap();
    assert_eq!(brushes.next(), Some(Err(BrushError::UnsupportedBitDepth { depth: 1 })));
    assert_eq!(brushes.next(), Some(Ok(brush_2x3())));
    assert_eq!(brushes.next(), None);
}

#[test]
fn sectioned_box_that_ends_before_it_starts_is_an_error() {
    let f = file(6, 1, &[body(47, (5, 0, 4, 0xffff_ffff), 8, 0, &[]), raw_2x3(47)], 0);
    let mut brushes = open(ByteCursor::new(f)).unwrap();
    assert_eq!(
        brushes.next(),
        Some(Err(BrushError::InvalidBounds { top: 5, left: 0, bottom: 4, right: 0xffff_ffff }))
    );
    assert_eq!(brushes.next(), Some(Ok(brush_2x3())));
}

#[test]
fn huge_box_is_a_short_read() {
    let f = file(6, 1, &[body(47, (0, 0, 0xffff_ffff, 0xffff_ffff), 8, 0, &[1, 2]), raw_2x3(47)], 0);
    let mut brushes = open(ByteCursor::new(f)).unwrap();
    assert_eq!(brushes.next(), Some(Err(BrushError::IoError(IoError::UnexpectedEof))));
    assert_eq!(brushes.next(), Some(Ok(brush_2x3())));
}

#[test]
fn sectioned_unpacked_samples_must_fill_the_box() {
    let payload = [0, 2, 0xfe, 7];
    let f = file(6, 1, &[body(47, (0, 0, 1, 0x1_0000), 8, 1, &payload)], 0);
    let mut brushes = open(ByteCursor::new(f)).unwrap();
    assert_eq!(
        brushes.next(),
        Some(Err(BrushError::SampleCountMismatch { expected: 0x1_0000, actual: 3 }))
    );
}

#[test]
fn lower_case_8bim_is_refused() {
    let mut f = be16(6);
    f.extend(be16(1));
    f.extend_from_slice(b"8bimsamp");
    f.extend(be32(0));
    assert_eq!(open(ByteCursor::new(f)).err(), Some(OpenError::Found8bim));
}

#[test]
fn lower_case_8bim_behind_a_block_is_refused() {
    let mut f = be16(6);
    f.extend(be16(1));
    f.extend_from_slice(b"8BIMpatt");
    f.extend(be32(2));
    f.extend_from_slice(&[0, 0]);
    f.extend_from_slice(b"8bim");
    assert_eq!(open(ByteCursor::new(f)).err(), Some(OpenError::Found8bim));
}

#[test]
fn scan_that_runs_out_of_blocks_is_an_error() {
    let mut f = be16(6);
    f.extend(be16(1));
    f.extend_from_slice(b"8BIMpatt");
    f.extend(be32(2));
    f.extend_from_slice(&[0, 0]);
    assert_eq!(
        open(ByteCursor::new(f.clone())).err(),
        Some(OpenError::IoError(IoError::UnexpectedEof))
    );
    // A block whose length points past the end of the stream.
    let n = f.len();
    f[n - 3] = 200;
    assert_eq!(open(ByteCursor::new(f)).err(), Some(OpenError::IoError(IoError::UnexpectedEof)));
}

#[test]
fn scan_stops_at_each_cut() {
    let whole = file(6, 1, &[], 0);
    for cut in 4..whole.len() {
        let f = whole[..cut].to_vec();
        assert_eq!(
            open(ByteCursor::new(f)).err(),
            Some(OpenError::IoError(IoError::UnexpectedEof))
        );
    }
    assert!(open(ByteCursor::new(whole)).is_ok());
}

#[test]
fn sectioned_decoder_opens_where_the_cursor_stands() {
    let f = file(6, 2, &[raw_2x3(301)], 0);
    let mut rdr = ByteCursor::new(f);
    rdr.seek_to(4);
    let mut dec = abr6::open(rdr, 6, 2).unwrap();
    assert_eq!(abr6::next_brush(&mut dec), Some(Ok(brush_2x3())));
    assert_eq!(abr6::next_brush(&mut dec), None);
}

#[test]
fn record_shorter_than_its_skip_is_a_body_failure() {
    // The record is located, but it ends before the bytes that are skipped
    // in front of the bounding box do.
    let mut f = Vec::new();
    f.extend_from_slice(b"8BIMsamp");
    f.extend(be32(8));
    f.extend(be32(4));
    f.extend(be32(0));
    let mut dec = abr6::open(ByteCursor::new(f), 6, 1).unwrap();
    assert_eq!(
        abr6::next_brush(&mut dec),
        Some(Err(BrushError::IoError(IoError::UnexpectedEof)))
    );
    assert_eq!(abr6::next_brush(&mut dec), None);
}

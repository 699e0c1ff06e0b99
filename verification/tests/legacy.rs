use abrupng::abr::abr12;
use abrupng::abr::{open, BrushError, ByteCursor, ImageBrush, IoError};

fn be16(v: u16) -> Vec<u8> {
    vec![(v >> 8) as u8, v as u8]
}

fn be32(v: u32) -> Vec<u8> {
    vec![(v >> 24) as u8, (v >> 16) as u8, (v >> 8) as u8, v as u8]
}

/// The body of a record: everything behind its length field.
fn body(
    ty: u16,
    name_units: Option<u32>,
    bounds: (u16, u16, u16, u16),
    depth: u16,
    compressed: u8,
    payload: &[u8],
) -> Vec<u8> {
    let (top, left, bottom, right) = bounds;
    let mut b = Vec::new();
    b.extend(be16(ty));
    b.extend(be32(0xdead_beef));
    b.extend(be16(25));
    if let Some(units) = name_units {
        b.extend(be32(units));
        b.extend(vec![0x41; 4 * units as usize]);
    }
    b.push(1);
    b.extend(be16(top));
    b.extend(be16(left));
    b.extend(be16(bottom));
    b.extend(be16(right));
    b.extend(be32(top as u32));
    b.extend(be32(left as u32));
    b.extend(be32(bottom as u32));
    b.extend(be32(right as u32));
    b.extend(be16(depth));
    b.push(compressed);
    b.extend_from_slice(payload);
    b
}

/// A record: the length field and the body.
fn record(body: Vec<u8>) -> Vec<u8> {
    let mut r = be16(body.len() as u16);
    r.extend(body);
    r
}

fn file(version: u16, count: u16, records: &[Vec<u8>]) -> Vec<u8> {
    let mut f = be16(version);
    f.extend(be16(count));
    for r in records {
        f.extend_from_slice(r);
    }
    f
}

fn raw_2x3() -> Vec<u8> {
    record(body(2, None, (10, 20, 13, 22), 8, 0, &[1, 2, 3, 4, 5, 6]))
}

fn brush_2x3() -> ImageBrush {
    ImageBrush { width: 2, height: 3, depth: 8, data: vec![1, 2, 3, 4, 5, 6] }
}

#[test]
fn raw_brush_is_read_as_stored() {
    let mut brushes = open(ByteCursor::new(file(1, 1, &[raw_2x3()]))).unwrap();
    assert_eq!(brushes.next(), Some(Ok(brush_2x3())));
    assert_eq!(brushes.next(), None);
}

#[test]
fn flat_compressed_brush_is_unpacked() {
    // Two rows of 4 samples: lengths 2 and 5, runs 4 x 7 and literal 1 2 3 4.
    let payload = [0, 2, 0, 5, 0xfd, 7, 3, 1, 2, 3, 4];
    let rec = record(body(2, None, (0, 0, 2, 4), 8, 1, &payload));
    let mut brushes = open(ByteCursor::new(file(1, 1, &[rec]))).unwrap();
    assert_eq!(
        brushes.next(),
        Some(Ok(ImageBrush { width: 4, height: 2, depth: 8, data: vec![7, 7, 7, 7, 1, 2, 3, 4] }))
    );
    assert_eq!(brushes.next(), None);
}

#[test]
fn declared_count_of_items_is_yielded() {
    let bad_type = record(body(1, None, (0, 0, 1, 1), 8, 0, &[9]));
    let f = file(1, 3, &[raw_2x3(), bad_type, raw_2x3()]);
    let mut brushes = open(ByteCursor::new(f)).unwrap();
    let items = brushes.collect_remaining();
    assert_eq!(
        items,
        vec![
            Ok(brush_2x3()),
            Err(BrushError::UnsupportedBrushType { ty: 1 }),
            Ok(brush_2x3()),
        ]
    );
    assert_eq!(brushes.next(), None);
}

#[test]
fn records_behind_the_declared_count_are_not_read() {
    let f = file(1, 1, &[raw_2x3(), raw_2x3()]);
    let mut brushes = open(ByteCursor::new(f)).unwrap();
    assert_eq!(brushes.collect_remaining().len(), 1);
}

#[test]
fn no_brushes_declared_yields_nothing() {
    let mut brushes = open(ByteCursor::new(file(2, 0, &[raw_2x3()]))).unwrap();
    assert_eq!(brushes.next(), None);
    assert_eq!(brushes.next(), None);
}

#[test]
fn length_past_the_end_of_the_stream_latches() {
    // Two records are declared. The first one's length field is cut off.
    let mut f = file(1, 2, &[]);
    f.push(0);
    let mut brushes = open(ByteCursor::new(f)).unwrap();
    assert_eq!(brushes.next(), Some(Err(BrushError::IoError(IoError::UnexpectedEof))));
    assert_eq!(brushes.next(), None);
    assert_eq!(brushes.next(), None);
}

#[test]
fn record_cut_off_behind_its_length_is_a_body_failure() {
    // The length field points far past the end of the stream: the record is
    // located, its body cannot be read, and the record behind cannot be
    // located.
    let mut f = file(1, 3, &[]);
    f.extend(be16(0xffff));
    let mut brushes = open(ByteCursor::new(f)).unwrap();
    assert_eq!(brushes.next(), Some(Err(BrushError::IoError(IoError::UnexpectedEof))));
    assert_eq!(brushes.next(), Some(Err(BrushError::IoError(IoError::UnexpectedEof))));
    assert_eq!(brushes.next(), None);
}

#[test]
fn unsupported_type_does_not_stop_the_iteration() {
    let bad_type = record(body(3, None, (0, 0, 1, 1), 8, 0, &[9]));
    let f = file(1, 2, &[bad_type, raw_2x3()]);
    let mut brushes = open(ByteCursor::new(f)).unwrap();
    assert_eq!(brushes.next(), Some(Err(BrushError::UnsupportedBrushType { ty: 3 })));
    assert_eq!(brushes.next(), Some(Ok(brush_2x3())));
    assert_eq!(brushes.next(), None);
}

#[test]
fn flat_unsupported_depth_does_not_stop_the_iteration() {
    let deep = record(body(2, None, (0, 0, 1, 1), 16, 0, &[9, 9]));
    let f = file(1, 2, &[deep, raw_2x3()]);
    let mut brushes = open(ByteCursor::new(f)).unwrap();
    assert_eq!(brushes.next(), Some(Err(BrushError::UnsupportedBitDepth { depth: 16 })));
    assert_eq!(brushes.next(), Some(Ok(brush_2x3())));
    assert_eq!(brushes.next(), None);
}

#[test]
fn truncated_samples_do_not_stop_the_iteration() {
    // The first record's box calls for 10000 samples, which the stream
    // does not hold.
    let short = record(body(2, None, (0, 0, 100, 100), 8, 0, &[]));
    let f = file(1, 2, &[short, raw_2x3()]);
    let mut brushes = open(ByteCursor::new(f)).unwrap();
    assert_eq!(brushes.next(), Some(Err(BrushError::IoError(IoError::UnexpectedEof))));
    assert_eq!(brushes.next(), Some(Ok(brush_2x3())));
    assert_eq!(brushes.next(), None);
}

#[test]
fn flat_box_that_ends_before_it_starts_is_an_error() {
    let wide = record(body(2, None, (0, 5, 1, 4), 8, 0, &[9]));
    let tall = record(body(2, None, (7, 0, 6, 1), 8, 0, &[9]));
    let f = file(1, 3, &[wide, tall, raw_2x3()]);
    let mut brushes = open(ByteCursor::new(f)).unwrap();
    assert_eq!(
        brushes.next(),
        Some(Err(BrushError::InvalidBounds { top: 0, left: 5, bottom: 1, right: 4 }))
    );
    assert_eq!(
        brushes.next(),
        Some(Err(BrushError::InvalidBounds { top: 7, left: 0, bottom: 6, right: 1 }))
    );
    assert_eq!(brushes.next(), Some(Ok(brush_2x3())));
}

#[test]
fn empty_box_gives_an_empty_brush() {
    let rec = record(body(2, None, (3, 3, 3, 9), 8, 0, &[]));
    let mut brushes = open(ByteCursor::new(file(1, 1, &[rec]))).unwrap();
    assert_eq!(
        brushes.next(),
        Some(Ok(ImageBrush { width: 6, height: 0, depth: 8, data: vec![] }))
    );
}

#[test]
fn flat_unpacked_samples_must_fill_the_box() {
    // A box of 2 x 2, but the runs give 3 samples.
    let payload = [0, 2, 0, 0, 0xfe, 7];
    let rec = record(body(2, None, (0, 0, 2, 2), 8, 1, &payload));
    let f = file(1, 2, &[rec, raw_2x3()]);
    let mut brushes = open(ByteCursor::new(f)).unwrap();
    assert_eq!(
        brushes.next(),
        Some(Err(BrushError::SampleCountMismatch { expected: 4, actual: 3 }))
    );
    assert_eq!(brushes.next(), Some(Ok(brush_2x3())));
}

#[test]
fn version_2_skips_the_name() {
    let named = record(body(2, Some(3), (10, 20, 13, 22), 8, 0, &[1, 2, 3, 4, 5, 6]));
    let unnamed = record(body(2, Some(0), (10, 20, 13, 22), 8, 0, &[1, 2, 3, 4, 5, 6]));
    let f = file(2, 2, &[named, unnamed]);
    let mut brushes = open(ByteCursor::new(f)).unwrap();
    assert_eq!(brushes.next(), Some(Ok(brush_2x3())));
    assert_eq!(brushes.next(), Some(Ok(brush_2x3())));
    assert_eq!(brushes.next(), None);
}

#[test]
fn version_1_has_no_name() {
    // A record laid out for version 2 does not decode as version 1: the
    // name length is taken for the flag and the box.
    let named = record(body(2, Some(0), (10, 20, 13, 22), 8, 0, &[1, 2, 3, 4, 5, 6]));
    let f = file(1, 2, &[named, raw_2x3()]);
    let mut brushes = open(ByteCursor::new(f)).unwrap();
    assert_ne!(brushes.next(), Some(Ok(brush_2x3())));
    assert_eq!(brushes.next(), Some(Ok(brush_2x3())));
}

#[test]
fn name_that_runs_past_the_end_is_a_body_failure() {
    // The name claims 4 * 0x4000_0000 bytes.
    let mut b = be16(2);
    b.extend(be32(0));
    b.extend(be16(0));
    b.extend(be32(0x4000_0000));
    let f = file(2, 2, &[record(b), raw_2x3()]);
    let mut brushes = open(ByteCursor::new(f)).unwrap();
    assert_eq!(brushes.next(), Some(Err(BrushError::IoError(IoError::UnexpectedEof))));
    assert_ne!(brushes.next(), None);
    assert_eq!(brushes.next(), None);
}

#[test]
fn flat_decoder_opens_where_the_cursor_stands() {
    let mut data = vec![0xee; 3];
    data.extend(raw_2x3());
    let mut rdr = ByteCursor::new(data);
    rdr.seek_to(3);
    let mut dec = abr12::open(rdr, 1, 1).unwrap();
    assert_eq!(abr12::next_brush(&mut dec), Some(Ok(brush_2x3())));
    assert_eq!(abr12::next_brush(&mut dec), None);
}

#[test]
fn decoder_with_offset_near_the_end_of_64_bits_fails_to_locate() {
    let mut rdr = ByteCursor::new(vec![0, 1]);
    rdr.seek_to(u64::MAX);
    let mut dec = abr12::open(rdr, 1, 5).unwrap();
    assert_eq!(
        abr12::next_brush(&mut dec),
        Some(Err(BrushError::IoError(IoError::UnexpectedEof)))
    );
    assert_eq!(abr12::next_brush(&mut dec), None);
}

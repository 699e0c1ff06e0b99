use abrupng::abr::{ByteCursor, IoError};

#[test]
fn new_cursor_starts_at_zero() {
    let rdr = ByteCursor::new(vec![1, 2, 3]);
    assert_eq!(rdr.tell(), 0);
    assert_eq!(rdr.remaining(), 3);
}

#[test]
fn read_u8_takes_one_byte() {
    let mut rdr = ByteCursor::new(vec![0xab, 0xcd]);
    assert_eq!(rdr.read_u8(), Ok(0xab));
    assert_eq!(rdr.tell(), 1);
    assert_eq!(rdr.read_u8(), Ok(0xcd));
    assert_eq!(rdr.read_u8(), Err(IoError::UnexpectedEof));
    assert_eq!(rdr.tell(), 2);
}

#[test]
fn read_u16_is_big_endian() {
    let mut rdr = ByteCursor::new(vec![0x12, 0x34, 0xff, 0x01]);
    assert_eq!(rdr.read_u16_be(), Ok(0x1234));
    assert_eq!(rdr.tell(), 2);
    assert_eq!(rdr.read_u16_be(), Ok(0xff01));
    assert_eq!(rdr.tell(), 4);
}

#[test]
fn read_u32_is_big_endian() {
    let mut rdr = ByteCursor::new(vec![0x12, 0x34, 0x56, 0x78, 0x00, 0x00, 0x01, 0x00]);
    assert_eq!(rdr.read_u32_be(), Ok(0x1234_5678));
    assert_eq!(rdr.read_u32_be(), Ok(256));
    assert_eq!(rdr.tell(), 8);
}

#[test]
fn short_read_of_u16_fails_and_runs_to_the_end() {
    let mut rdr = ByteCursor::new(vec![0x12, 0x34, 0x56]);
    assert_eq!(rdr.read_u16_be(), Ok(0x1234));
    assert_eq!(rdr.read_u16_be(), Err(IoError::UnexpectedEof));
    assert_eq!(rdr.tell(), 3);
}

#[test]
fn short_read_of_u32_fails_and_runs_to_the_end() {
    let mut rdr = ByteCursor::new(vec![1, 2, 3]);
    assert_eq!(rdr.read_u32_be(), Err(IoError::UnexpectedEof));
    assert_eq!(rdr.tell(), 3);
}

#[test]
fn read_exact_copies_the_bytes() {
    let mut rdr = ByteCursor::new(vec![9, 8, 7, 6, 5]);
    assert_eq!(rdr.read_u8(), Ok(9));
    assert_eq!(rdr.read_exact(3), Ok(vec![8, 7, 6]));
    assert_eq!(rdr.tell(), 4);
    assert_eq!(rdr.read_exact(2), Err(IoError::UnexpectedEof));
    assert_eq!(rdr.tell(), 5);
}

#[test]
fn read_exact_of_nothing_succeeds_anywhere() {
    let mut rdr = ByteCursor::new(vec![1, 2]);
    rdr.seek_to(10);
    assert_eq!(rdr.read_exact(0), Ok(vec![]));
    assert_eq!(rdr.tell(), 10);
}

#[test]
fn seek_to_may_pass_the_end() {
    let mut rdr = ByteCursor::new(vec![1, 2]);
    rdr.seek_to(100);
    assert_eq!(rdr.tell(), 100);
    assert_eq!(rdr.remaining(), 0);
    assert_eq!(rdr.read_u8(), Err(IoError::UnexpectedEof));
    assert_eq!(rdr.tell(), 100);
    rdr.seek_to(1);
    assert_eq!(rdr.read_u8(), Ok(2));
}

#[test]
fn seek_by_moves_both_ways() {
    let mut rdr = ByteCursor::new(vec![10, 11, 12, 13]);
    assert_eq!(rdr.seek_by(3), Ok(3));
    assert_eq!(rdr.read_u8(), Ok(13));
    assert_eq!(rdr.seek_by(-4), Ok(0));
    assert_eq!(rdr.read_u8(), Ok(10));
    assert_eq!(rdr.seek_by(0), Ok(1));
}

#[test]
fn seek_by_before_the_start_fails_and_stays() {
    let mut rdr = ByteCursor::new(vec![10, 11, 12, 13]);
    rdr.seek_to(2);
    assert_eq!(rdr.seek_by(-3), Err(IoError::InvalidSeek));
    assert_eq!(rdr.tell(), 2);
    assert_eq!(rdr.seek_by(i64::MIN), Err(IoError::InvalidSeek));
    assert_eq!(rdr.tell(), 2);
}

#[test]
fn seek_by_past_64_bits_fails_and_stays() {
    let mut rdr = ByteCursor::new(vec![]);
    rdr.seek_to(u64::MAX - 1);
    assert_eq!(rdr.seek_by(1), Ok(u64::MAX));
    assert_eq!(rdr.seek_by(1), Err(IoError::InvalidSeek));
    assert_eq!(rdr.tell(), u64::MAX);
    assert_eq!(rdr.seek_by(i64::MIN), Ok(u64::MAX - (1u64 << 63)));
}

#[test]
fn offset_after_does_not_move() {
    let mut rdr = ByteCursor::new(vec![1, 2, 3]);
    rdr.seek_to(2);
    assert_eq!(rdr.offset_after(40), Ok(42));
    assert_eq!(rdr.tell(), 2);
    assert_eq!(rdr.offset_after(u64::MAX - 2), Ok(u64::MAX));
    assert_eq!(rdr.offset_after(u64::MAX - 1), Err(IoError::InvalidSeek));
}

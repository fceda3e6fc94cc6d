use wasm_binary::leb::{read_i32, read_i64, read_signed, read_u32, LebError};

fn u32_of(bytes: &[u8]) -> (Result<u32, LebError>, usize) {
    let mut pos = 0;
    let res = read_u32(bytes, &mut pos);
    (res, pos)
}

fn i32_of(bytes: &[u8]) -> (Result<i32, LebError>, usize) {
    let mut pos = 0;
    let res = read_i32(bytes, &mut pos);
    (res, pos)
}

fn i64_of(bytes: &[u8]) -> (Result<i64, LebError>, usize) {
    let mut pos = 0;
    let res = read_i64(bytes, &mut pos);
    (res, pos)
}

fn signed_of(bytes: &[u8], bits: u32) -> (Result<i64, LebError>, usize) {
    let mut pos = 0;
    let res = read_signed(bytes, &mut pos, bits);
    (res, pos)
}

fn unsigned_bytes(mut value: u32) -> Vec<u8> {
    let mut out = Vec::new();
    while value >= 128 {
        out.push((value % 128) as u8 + 128);
        value /= 128;
    }
    out.push(value as u8);
    out
}

fn signed_bytes(mut value: i64) -> Vec<u8> {
    let mut out = Vec::new();
    while value < -64 || value >= 64 {
        out.push(value.rem_euclid(128) as u8 + 128);
        value = value.div_euclid(128);
    }
    out.push(value.rem_euclid(128) as u8);
    out
}

#[test]
fn reads_unsigned_integers() {
    assert_eq!(u32_of(&[0x00]), (Ok(0), 1));
    assert_eq!(u32_of(&[0x7F]), (Ok(127), 1));
    assert_eq!(u32_of(&[0x80, 0x01]), (Ok(128), 2));
    assert_eq!(u32_of(&[0xE5, 0x8E, 0x26]), (Ok(624485), 3));
    assert_eq!(u32_of(&[0xFF, 0xFF, 0xFF, 0xFF, 0x0F]), (Ok(u32::MAX), 5));
}

#[test]
fn reads_signed_integers() {
    assert_eq!(i32_of(&[0x3F]), (Ok(63), 1));
    assert_eq!(i32_of(&[0x40]), (Ok(-64), 1));
    assert_eq!(i32_of(&[0x7F]), (Ok(-1), 1));
    assert_eq!(i32_of(&[0xC0, 0xBB, 0x78]), (Ok(-123456), 3));
    assert_eq!(i32_of(&[0xFF, 0xFF, 0xFF, 0xFF, 0x07]), (Ok(i32::MAX), 5));
    assert_eq!(i32_of(&[0x80, 0x80, 0x80, 0x80, 0x78]), (Ok(i32::MIN), 5));
    assert_eq!(
        i64_of(&[0xFF, 0xFF, 0xFF, 0xFF, 0xFF, 0xFF, 0xFF, 0xFF, 0xFF, 0x00]),
        (Ok(i64::MAX), 10)
    );
    assert_eq!(
        i64_of(&[0x80, 0x80, 0x80, 0x80, 0x80, 0x80, 0x80, 0x80, 0x80, 0x7F]),
        (Ok(i64::MIN), 10)
    );
}

#[test]
fn padding_within_the_longest_length_is_accepted() {
    assert_eq!(u32_of(&[0x80, 0x00]), (Ok(0), 2));
    assert_eq!(u32_of(&[0x83, 0x80, 0x80, 0x80, 0x00]), (Ok(3), 5));
    assert_eq!(i32_of(&[0xFF, 0xFF, 0xFF, 0xFF, 0x7F]), (Ok(-1), 5));
}

#[test]
fn an_integer_that_is_too_long_or_too_large_breaks_at_its_last_possible_byte() {
    assert_eq!(
        u32_of(&[0x80, 0x80, 0x80, 0x80, 0x80, 0x00]),
        (Err(LebError::Overflow), 4)
    );
    assert_eq!(u32_of(&[0xFF, 0xFF, 0xFF, 0xFF, 0x1F]), (Err(LebError::Overflow), 4));
    assert_eq!(i32_of(&[0xFF, 0xFF, 0xFF, 0xFF, 0x08]), (Err(LebError::Overflow), 4));
    assert_eq!(i32_of(&[0x80, 0x80, 0x80, 0x80, 0x77]), (Err(LebError::Overflow), 4));
    assert_eq!(
        i64_of(&[0xFF, 0xFF, 0xFF, 0xFF, 0xFF, 0xFF, 0xFF, 0xFF, 0xFF, 0x01]),
        (Err(LebError::Overflow), 9)
    );
}

#[test]
fn an_integer_that_breaks_off_breaks_at_the_end_of_the_input() {
    assert_eq!(u32_of(&[]), (Err(LebError::UnexpectedEof), 0));
    assert_eq!(u32_of(&[0x80]), (Err(LebError::UnexpectedEof), 1));
    assert_eq!(i64_of(&[0xFF, 0x80, 0x81]), (Err(LebError::UnexpectedEof), 3));
    let mut pos = 7;
    assert_eq!(read_u32(&[0x00], &mut pos), Err(LebError::UnexpectedEof));
    assert_eq!(pos, 7);
}

#[test]
fn signed_integers_of_other_widths() {
    assert_eq!(signed_of(&[0x40], 33), (Ok(-64), 1));
    assert_eq!(signed_of(&[0xFF, 0xFF, 0xFF, 0xFF, 0x0F], 33), (Ok(4294967295), 5));
    assert_eq!(signed_of(&[0x80, 0x80, 0x80, 0x80, 0x70], 33), (Ok(-4294967296), 5));
    assert_eq!(
        signed_of(&[0xFF, 0xFF, 0xFF, 0xFF, 0x10], 33),
        (Err(LebError::Overflow), 4)
    );
    assert_eq!(signed_of(&[0x7F], 1), (Ok(-1), 1));
    assert_eq!(signed_of(&[0x01], 1), (Err(LebError::Overflow), 0));
}

#[test]
fn reading_gives_back_what_was_written() {
    for value in [0, 1, 127, 128, 16383, 16384, 624485, u32::MAX - 1, u32::MAX] {
        let mut bytes = vec![0xAA];
        bytes.extend_from_slice(&unsigned_bytes(value));
        let end = bytes.len();
        bytes.push(0xBB);
        let mut pos = 1;
        assert_eq!(read_u32(&bytes, &mut pos), Ok(value));
        assert_eq!(pos, end);
    }
    for value in [0, -1, 63, 64, -64, -65, 8191, -8192, i64::MAX, i64::MIN] {
        let bytes = signed_bytes(value);
        assert_eq!(i64_of(&bytes), (Ok(value), bytes.len()));
    }
    for value in [0, -1, 64, -65, i32::MAX, i32::MIN] {
        let bytes = signed_bytes(value as i64);
        assert_eq!(i32_of(&bytes), (Ok(value), bytes.len()));
    }
}

#[test]
fn what_is_read_depends_on_the_bytes_of_the_integer_alone() {
    let mut pos = 3;
    assert_eq!(read_u32(&[0xFF, 0xFF, 0xFF, 0xE5, 0x8E, 0x26], &mut pos), Ok(624485));
    assert_eq!(pos, 6);
    assert_eq!(u32_of(&[0xE5, 0x8E, 0x26, 0xFF]), u32_of(&[0xE5, 0x8E, 0x26, 0x00, 0x00]));
    assert_eq!(i32_of(&[0xC0, 0xBB, 0x78, 0xFF]), i32_of(&[0xC0, 0xBB, 0x78]));
}

#[test]
fn integer_errors_have_messages() {
    assert_eq!(LebError::UnexpectedEof.to_string(), "unexpected end of LEB128 integer");
    assert_eq!(LebError::Overflow.to_string(), "LEB128 integer out of range");
}

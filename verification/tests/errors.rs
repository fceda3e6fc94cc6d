use wasm_binary::leb::LebError;
use wasm_binary::{decode, parse, DecodeError, DecodeErrorKind, ParseError, ParseErrorKind, ValType};

fn with_header(rest: &[u8]) -> Vec<u8> {
    let mut bytes = vec![0x00, 0x61, 0x73, 0x6D, 0x01, 0x00, 0x00, 0x00];
    bytes.extend_from_slice(rest);
    bytes
}

fn error_of(rest: &[u8]) -> ParseError {
    parse(&with_header(rest)).unwrap_err()
}

#[test]
fn a_bad_header_stops_parsing() {
    assert_eq!(parse(b"\0asn"), Err(ParseError { offset: 0, kind: ParseErrorKind::NotWasm }));
    assert_eq!(
        parse(b"\0asm\x01\0\x01\0"),
        Err(ParseError { offset: 4, kind: ParseErrorKind::UnsupportedVersion })
    );
    assert_eq!(parse(&[]), Err(ParseError { offset: 0, kind: ParseErrorKind::UnexpectedEof }));
}

#[test]
fn a_wrong_byte_is_reported_before_a_missing_one() {
    assert_eq!(parse(b"\0b"), Err(ParseError { offset: 0, kind: ParseErrorKind::NotWasm }));
    assert_eq!(
        parse(b"\0asm\x01\x01"),
        Err(ParseError { offset: 4, kind: ParseErrorKind::UnsupportedVersion })
    );
}

#[test]
fn integer_faults_are_placed_at_the_byte_that_broke() {
    // a section size that is missing, and one that is too long
    assert_eq!(
        error_of(&[0x01]),
        ParseError { offset: 9, kind: ParseErrorKind::Leb(LebError::UnexpectedEof) }
    );
    assert_eq!(
        error_of(&[0x01, 0x80, 0x80, 0x80, 0x80, 0x80, 0x00]),
        ParseError { offset: 13, kind: ParseErrorKind::Leb(LebError::Overflow) }
    );
    // a count that breaks off at the end of its section, though the file goes on
    assert_eq!(
        error_of(&[0x01, 0x01, 0x80, 0x00, 0x00]),
        ParseError { offset: 11, kind: ParseErrorKind::Leb(LebError::UnexpectedEof) }
    );
}

#[test]
fn content_may_not_run_past_its_section() {
    // one function type, but the section ends before its tag
    assert_eq!(
        error_of(&[0x01, 0x01, 0x01, 0x03, 0x01, 0x00]),
        ParseError { offset: 11, kind: ParseErrorKind::UnexpectedEof }
    );
    // a name of five bytes in a section of four
    assert_eq!(
        error_of(&[0x00, 0x04, 0x05, b'a', b'b', b'c', b'd', b'e']),
        ParseError { offset: 14, kind: ParseErrorKind::UnexpectedEof }
    );
}

#[test]
fn every_section_with_a_parser_checks_its_size() {
    let mismatch = |offset: usize| ParseError { offset, kind: ParseErrorKind::SectionSizeMismatch };
    assert_eq!(error_of(&[0x01, 0x02, 0x00, 0x00]), mismatch(11));
    assert_eq!(error_of(&[0x02, 0x02, 0x00, 0x00]), mismatch(11));
    assert_eq!(error_of(&[0x03, 0x02, 0x00, 0x00]), mismatch(11));
    assert_eq!(error_of(&[0x07, 0x02, 0x00, 0x00]), mismatch(11));
    assert_eq!(error_of(&[0x08, 0x02, 0x00, 0x00]), mismatch(11));
}

#[test]
fn a_global_import_needs_a_value_type() {
    assert_eq!(
        error_of(&[0x02, 0x08, 0x01, 0x01, b'a', 0x01, b'g', 0x03, 0x70, 0x00]),
        ParseError { offset: 16, kind: ParseErrorKind::InvalidValType(0x70) }
    );
}

#[test]
fn limits_with_a_bad_flag_are_rejected_at_the_flag_whatever_follows() {
    let flag = ParseError { offset: 16, kind: ParseErrorKind::InvalidLimits };
    assert_eq!(error_of(&[0x02, 0x07, 0x01, 0x01, b'a', 0x01, b'm', 0x02, 0x02]), flag);
    assert_eq!(error_of(&[0x02, 0x08, 0x01, 0x01, b'a', 0x01, b'm', 0x02, 0x02, 0x00]), flag);
    assert_eq!(error_of(&[0x02, 0x08, 0x01, 0x01, b'a', 0x01, b'm', 0x02, 0xFF, 0x80]), flag);
}

#[test]
fn limits_with_a_maximum_need_both_numbers() {
    assert_eq!(
        error_of(&[0x02, 0x08, 0x01, 0x01, b'a', 0x01, b'm', 0x02, 0x01, 0x01]),
        ParseError { offset: 18, kind: ParseErrorKind::Leb(LebError::UnexpectedEof) }
    );
}

#[test]
fn a_huge_count_is_not_believed() {
    // four billion types announced in a section of five bytes
    assert_eq!(
        error_of(&[0x01, 0x05, 0xFF, 0xFF, 0xFF, 0xFF, 0x0F]),
        ParseError { offset: 15, kind: ParseErrorKind::UnexpectedEof }
    );
}

#[test]
fn names_must_be_utf8() {
    let bad = |raw: &[u8]| {
        let mut section = vec![0x00, raw.len() as u8 + 1, raw.len() as u8];
        section.extend_from_slice(raw);
        error_of(&section)
    };
    let invalid = ParseError { offset: 11, kind: ParseErrorKind::InvalidUtf8 };
    assert_eq!(bad(&[0x80]), invalid); // a continuation byte on its own
    assert_eq!(bad(&[b'a', 0xC3]), invalid); // a sequence that breaks off
    assert_eq!(bad(&[0xC0, 0x80]), invalid); // an overlong encoding
    assert_eq!(bad(&[0xED, 0xA0, 0x80]), invalid); // a surrogate
    assert_eq!(bad(&[0xF4, 0x90, 0x80, 0x80]), invalid); // past the last code point
}

#[test]
fn names_are_decoded_as_utf8() {
    let name = "n\u{e9}\u{20ac}\u{1f980}";
    let mut section = vec![0x00, name.len() as u8 + 1, name.len() as u8];
    section.extend_from_slice(&[0x6E, 0xC3, 0xA9, 0xE2, 0x82, 0xAC, 0xF0, 0x9F, 0xA6, 0x80]);
    let module = parse(&with_header(&section)).unwrap();
    assert_eq!(module.custom_sections, vec![name.to_string()]);
}

#[test]
fn import_and_export_names_must_be_utf8() {
    assert_eq!(
        error_of(&[0x02, 0x04, 0x01, 0x01, 0xFF, 0x00]),
        ParseError { offset: 12, kind: ParseErrorKind::InvalidUtf8 }
    );
    assert_eq!(
        error_of(&[0x07, 0x05, 0x01, 0x01, 0xFF, 0x00, 0x00]),
        ParseError { offset: 12, kind: ParseErrorKind::InvalidUtf8 }
    );
}

#[test]
fn parse_errors_have_messages() {
    let text = |kind: ParseErrorKind| kind.to_string();
    assert_eq!(text(ParseErrorKind::NotWasm), "not a WebAssembly binary (bad magic number)");
    assert_eq!(text(ParseErrorKind::UnsupportedVersion), "unsupported WebAssembly version");
    assert_eq!(text(ParseErrorKind::UnexpectedEof), "unexpected end of input");
    assert_eq!(text(ParseErrorKind::Leb(LebError::Overflow)), LebError::Overflow.to_string());
    assert_eq!(text(ParseErrorKind::UnknownSectionId(13)), "unknown section id 13");
    assert_eq!(text(ParseErrorKind::UnknownSectionId(255)), "unknown section id 255");
    assert_eq!(text(ParseErrorKind::SectionOutOfOrder), "section out of order");
    assert_eq!(
        text(ParseErrorKind::SectionSizeMismatch),
        "section content did not match its declared size"
    );
    assert_eq!(text(ParseErrorKind::InvalidValType(0x70)), "invalid value type byte 0x70");
    assert_eq!(
        text(ParseErrorKind::InvalidFuncType(0x05)),
        "invalid function type tag 0x05 (expected 0x60)"
    );
    assert_eq!(
        text(ParseErrorKind::InvalidExternKind(0xAF)),
        "invalid import/export kind byte 0xaf"
    );
    assert_eq!(
        text(ParseErrorKind::InvalidLimits),
        "invalid limits flag byte (expected 0x00 or 0x01)"
    );
    assert_eq!(text(ParseErrorKind::InvalidUtf8), "custom section name is not valid UTF-8");
    assert_eq!(
        text(ParseErrorKind::TypeIndexOutOfRange(4294967295)),
        "type index 4294967295 is out of range"
    );
}

#[test]
fn parse_errors_say_where() {
    let error = ParseError { offset: 1200, kind: ParseErrorKind::SectionOutOfOrder };
    assert_eq!(error.to_string(), "at byte 1200: section out of order");
    assert_eq!(
        parse(&[]).unwrap_err().to_string(),
        "at byte 0: unexpected end of input"
    );
}

#[test]
fn decode_errors_have_messages() {
    assert_eq!(
        decode(&[0x01, 0x28]).unwrap_err().to_string(),
        "at instruction byte 1: unsupported opcode 0x28"
    );
    assert_eq!(
        decode(&[0x02, 0x00]).unwrap_err().to_string(),
        "at instruction byte 1: unsupported block type (multi-value)"
    );
    assert_eq!(
        decode(&[0x0C]).unwrap_err().to_string(),
        "at instruction byte 1: unexpected end of LEB128 integer"
    );
    assert_eq!(DecodeErrorKind::UnsupportedOpcode(0x06).to_string(), "unsupported opcode 0x06");
}

#[test]
fn an_immediate_that_does_not_fit_is_reported_at_its_first_byte() {
    let overflow = |offset: usize| {
        Err(DecodeError { offset, kind: DecodeErrorKind::Leb(LebError::Overflow) })
    };
    assert_eq!(decode(&[0x20, 0xFF, 0xFF, 0xFF, 0xFF, 0x1F]), overflow(1));
    assert_eq!(decode(&[0x01, 0x41, 0xFF, 0xFF, 0xFF, 0xFF, 0x08]), overflow(2));
    assert_eq!(decode(&[0x02, 0xFF, 0xFF, 0xFF, 0xFF, 0x10]), overflow(1));
}

#[test]
fn value_types_have_names() {
    assert_eq!(ValType::I32.to_string(), "i32");
    assert_eq!(ValType::I64.to_string(), "i64");
    assert_eq!(ValType::F32.to_string(), "f32");
    assert_eq!(ValType::F64.to_string(), "f64");
}

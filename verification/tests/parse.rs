use wasm_binary::parse::{parse, parse_header, Module, ParseError, ParseErrorKind};
use wasm_binary::types::{Export, ExternKind, Func, FuncType, Import, ImportDesc, ValType};

#[test]
fn accepts_a_bare_header() {
    let bytes = [0x00, 0x61, 0x73, 0x6D, 0x01, 0x00, 0x00, 0x00];
    assert_eq!(parse_header(&bytes), Ok(8));
}

#[test]
fn ignores_trailing_bytes() {
    let bytes = [0x00, 0x61, 0x73, 0x6D, 0x01, 0x00, 0x00, 0x00, 0xFF, 0xFF];
    assert_eq!(parse_header(&bytes), Ok(8));
}

#[test]
fn rejects_wrong_magic() {
    let bytes = [0x00, 0x61, 0x73, 0x00, 0x01, 0x00, 0x00, 0x00];
    assert_eq!(
        parse_header(&bytes),
        Err(ParseError { offset: 0, kind: ParseErrorKind::NotWasm })
    );
}

#[test]
fn rejects_unsupported_version() {
    let bytes = [0x00, 0x61, 0x73, 0x6D, 0x02, 0x00, 0x00, 0x00];
    assert_eq!(
        parse_header(&bytes),
        Err(ParseError { offset: 4, kind: ParseErrorKind::UnsupportedVersion })
    );
}

#[test]
fn reports_truncation_at_the_exact_missing_byte() {
    assert_eq!(
        parse_header(&[]),
        Err(ParseError { offset: 0, kind: ParseErrorKind::UnexpectedEof })
    );
    assert_eq!(
        parse_header(&[0x00, 0x61, 0x73, 0x6D]),
        Err(ParseError { offset: 4, kind: ParseErrorKind::UnexpectedEof })
    );
    assert_eq!(
        parse_header(&[0x00, 0x61, 0x73, 0x6D, 0x01, 0x00]),
        Err(ParseError { offset: 6, kind: ParseErrorKind::UnexpectedEof })
    );
}

#[test]
fn a_truncated_magic_number_is_eof_not_a_bad_magic() {
    // The first three bytes match \0asm; there is no fourth byte to
    // compare, so this is a truncation, not a content mismatch.
    assert_eq!(
        parse_header(&[0x00, 0x61, 0x73]),
        Err(ParseError { offset: 3, kind: ParseErrorKind::UnexpectedEof })
    );
}

fn header() -> Vec<u8> {
    vec![0x00, 0x61, 0x73, 0x6D, 0x01, 0x00, 0x00, 0x00]
}

#[test]
fn parses_a_module_with_no_sections() {
    assert_eq!(parse(&header()), Ok(Module::default()));
}

#[test]
fn parses_a_type_section() {
    let mut bytes = header();
    // type section: id 1, size 6, one functype (i32) -> i32
    bytes.extend_from_slice(&[0x01, 0x06, 0x01, 0x60, 0x01, 0x7F, 0x01, 0x7F]);
    let module = parse(&bytes).unwrap();
    assert_eq!(
        module.types,
        vec![FuncType { params: vec![ValType::I32], results: vec![ValType::I32] }]
    );
}

#[test]
fn parses_multiple_func_types_including_no_params_and_no_results() {
    let mut bytes = header();
    bytes.extend_from_slice(&[
        0x01, // type section id
        0x0A, // size
        0x02, // two functypes
        0x60, 0x00, 0x00, // () -> ()
        0x60, 0x02, 0x7F, 0x7E, 0x01, 0x7C, // (i32, i64) -> f64
    ]);
    let module = parse(&bytes).unwrap();
    assert_eq!(
        module.types,
        vec![
            FuncType { params: vec![], results: vec![] },
            FuncType {
                params: vec![ValType::I32, ValType::I64],
                results: vec![ValType::F64],
            },
        ]
    );
}

#[test]
fn records_custom_section_names_and_ignores_their_content() {
    let mut bytes = header();
    // custom section: id 0, size 4, name "x" (len 1) followed by 2 bytes
    // of payload this parser never looks at
    bytes.extend_from_slice(&[0x00, 0x04, 0x01, b'x', 0xAA, 0xBB]);
    let module = parse(&bytes).unwrap();
    assert_eq!(module.custom_sections, vec!["x".to_string()]);
    assert!(module.types.is_empty());
}

#[test]
fn skips_known_sections_it_does_not_parse_yet() {
    let mut bytes = header();
    // memory section: id 5, size 3, contents irrelevant - not decoded
    bytes.extend_from_slice(&[0x05, 0x03, 0x00, 0x01, 0x00]);
    let module = parse(&bytes).unwrap();
    assert_eq!(module.skipped_sections, vec![5]);
}

#[test]
fn custom_sections_may_appear_anywhere_and_repeat() {
    let mut bytes = header();
    bytes.extend_from_slice(&[0x00, 0x02, 0x01, b'a']); // custom "a"
    bytes.extend_from_slice(&[0x01, 0x04, 0x01, 0x60, 0x00, 0x00]); // type section
    bytes.extend_from_slice(&[0x00, 0x02, 0x01, b'b']); // custom "b"
    let module = parse(&bytes).unwrap();
    assert_eq!(module.custom_sections, vec!["a".to_string(), "b".to_string()]);
    assert_eq!(module.types, vec![FuncType { params: vec![], results: vec![] }]);
}

#[test]
fn rejects_an_unknown_section_id() {
    let mut bytes = header();
    bytes.extend_from_slice(&[0x0D, 0x00]); // id 13 does not exist
    assert_eq!(
        parse(&bytes),
        Err(ParseError { offset: 8, kind: ParseErrorKind::UnknownSectionId(13) })
    );
}

#[test]
fn rejects_sections_out_of_order() {
    let mut bytes = header();
    bytes.extend_from_slice(&[0x05, 0x00]); // memory section (id 5)
    let memory_end = bytes.len();
    bytes.extend_from_slice(&[0x01, 0x01, 0x00]); // type section (id 1), after id 5
    assert_eq!(
        parse(&bytes),
        Err(ParseError { offset: memory_end, kind: ParseErrorKind::SectionOutOfOrder })
    );
}

#[test]
fn rejects_a_repeated_section_id() {
    let mut bytes = header();
    bytes.extend_from_slice(&[0x01, 0x01, 0x00]); // empty type section
    let second_start = bytes.len();
    bytes.extend_from_slice(&[0x01, 0x01, 0x00]); // a second one
    assert_eq!(
        parse(&bytes),
        Err(ParseError { offset: second_start, kind: ParseErrorKind::SectionOutOfOrder })
    );
}

#[test]
fn rejects_a_section_that_claims_more_bytes_than_the_file_has() {
    let mut bytes = header();
    bytes.extend_from_slice(&[0x01, 0x05, 0x01, 0x60, 0x00]); // says 5 bytes, has 3
    assert_eq!(
        parse(&bytes),
        Err(ParseError { offset: bytes.len(), kind: ParseErrorKind::UnexpectedEof })
    );
}

#[test]
fn rejects_a_type_section_whose_size_does_not_match_its_content() {
    let mut bytes = header();
    // one functype that decodes in 6 bytes, but the section claims 7
    bytes.extend_from_slice(&[0x01, 0x07, 0x01, 0x60, 0x01, 0x7F, 0x01, 0x7F, 0x00]);
    assert_eq!(
        parse(&bytes),
        Err(ParseError { offset: 8 + 8, kind: ParseErrorKind::SectionSizeMismatch })
    );
}

#[test]
fn rejects_a_func_type_with_the_wrong_tag() {
    let mut bytes = header();
    bytes.extend_from_slice(&[0x01, 0x03, 0x01, 0x61, 0x00]); // 0x61, not 0x60
    assert_eq!(
        parse(&bytes),
        Err(ParseError { offset: 8 + 3, kind: ParseErrorKind::InvalidFuncType(0x61) })
    );
}

#[test]
fn rejects_an_invalid_val_type() {
    let mut bytes = header();
    // (funcref) -> (), 0x70 is a valid reftype but not a valtype this
    // crate accepts
    bytes.extend_from_slice(&[0x01, 0x04, 0x01, 0x60, 0x01, 0x70]);
    assert_eq!(
        parse(&bytes),
        Err(ParseError { offset: 8 + 5, kind: ParseErrorKind::InvalidValType(0x70) })
    );
}

#[test]
fn rejects_a_non_utf8_custom_section_name() {
    let mut bytes = header();
    bytes.extend_from_slice(&[0x00, 0x02, 0x01, 0xFF]); // 0xFF is not valid UTF-8
    assert_eq!(
        parse(&bytes),
        Err(ParseError { offset: 8 + 3, kind: ParseErrorKind::InvalidUtf8 })
    );
}

#[test]
fn parses_a_function_import() {
    let mut bytes = header();
    bytes.extend_from_slice(&[0x01, 0x04, 0x01, 0x60, 0x00, 0x00]); // type 0: () -> ()
    // import section: id 2, one import "env"."log" of type 0
    bytes.extend_from_slice(&[
        0x02, 0x0B, 0x01, 0x03, b'e', b'n', b'v', 0x03, b'l', b'o', b'g', 0x00, 0x00,
    ]);
    let module = parse(&bytes).unwrap();
    assert_eq!(
        module.imports,
        vec![Import {
            module: "env".to_string(),
            name: "log".to_string(),
            desc: ImportDesc::Func(0),
        }]
    );
    assert_eq!(module.imported_func_count(), 1);
}

#[test]
fn parses_table_memory_and_global_imports_and_keeps_reading_after_them() {
    let mut bytes = header();
    bytes.extend_from_slice(&[
        0x02, 0x18, 0x03, // import section, size 24, 3 imports
        0x01, b'a', 0x01, b't', 0x01, 0x70, 0x00, 0x01, // "a"."t": table(funcref, limits{min:1})
        0x01, b'a', 0x01, b'm', 0x02, 0x01, 0x01, 0x02, // "a"."m": memory(limits{min:1,max:2})
        0x01, b'a', 0x01, b'g', 0x03, 0x7F, 0x01, // "a"."g": global(i32, mutable)
    ]);
    let module = parse(&bytes).unwrap();
    assert_eq!(
        module.imports,
        vec![
            Import { module: "a".to_string(), name: "t".to_string(), desc: ImportDesc::Table },
            Import { module: "a".to_string(), name: "m".to_string(), desc: ImportDesc::Memory },
            Import { module: "a".to_string(), name: "g".to_string(), desc: ImportDesc::Global },
        ]
    );
    assert_eq!(module.imported_func_count(), 0);
}

#[test]
fn rejects_a_function_import_with_an_out_of_range_type_index() {
    let mut bytes = header();
    // no type section, so type index 0 does not exist
    bytes.extend_from_slice(&[0x02, 0x07, 0x01, 0x01, b'a', 0x01, b'b', 0x00, 0x00]);
    let idx_offset = bytes.len() - 1;
    assert_eq!(
        parse(&bytes),
        Err(ParseError { offset: idx_offset, kind: ParseErrorKind::TypeIndexOutOfRange(0) })
    );
}

#[test]
fn rejects_an_invalid_import_kind() {
    let mut bytes = header();
    bytes.extend_from_slice(&[0x02, 0x06, 0x01, 0x01, b'a', 0x01, b'b', 0x04]); // kind 4 does not exist
    let kind_offset = bytes.len() - 1;
    assert_eq!(
        parse(&bytes),
        Err(ParseError { offset: kind_offset, kind: ParseErrorKind::InvalidExternKind(4) })
    );
}

#[test]
fn rejects_invalid_limits_flag() {
    let mut bytes = header();
    bytes.extend_from_slice(&[0x02, 0x07, 0x01, 0x01, b'a', 0x01, b'b', 0x02, 0x02]); // flag 2 is neither 0 nor 1
    let flag_offset = bytes.len() - 1;
    assert_eq!(
        parse(&bytes),
        Err(ParseError { offset: flag_offset, kind: ParseErrorKind::InvalidLimits })
    );
}

#[test]
fn parses_a_function_section_and_checks_its_type_indices() {
    let mut bytes = header();
    bytes.extend_from_slice(&[0x01, 0x04, 0x01, 0x60, 0x00, 0x00]); // type 0: () -> ()
    bytes.extend_from_slice(&[0x03, 0x03, 0x02, 0x00, 0x00]); // function section: two funcs, both type 0
    let module = parse(&bytes).unwrap();
    assert_eq!(module.funcs, vec![Func { type_idx: 0 }, Func { type_idx: 0 }]);
}

#[test]
fn rejects_a_function_section_entry_with_an_out_of_range_type_index() {
    let mut bytes = header();
    bytes.extend_from_slice(&[0x01, 0x04, 0x01, 0x60, 0x00, 0x00]); // type 0
    bytes.extend_from_slice(&[0x03, 0x02, 0x01, 0x01]); // one func, type 1 (does not exist)
    let idx_offset = bytes.len() - 1;
    assert_eq!(
        parse(&bytes),
        Err(ParseError { offset: idx_offset, kind: ParseErrorKind::TypeIndexOutOfRange(1) })
    );
}

#[test]
fn parses_exports_and_resolves_function_types_through_them() {
    let mut bytes = header();
    bytes.extend_from_slice(&[0x01, 0x06, 0x01, 0x60, 0x01, 0x7F, 0x01, 0x7F]); // type 0: (i32) -> i32
    bytes.extend_from_slice(&[0x03, 0x02, 0x01, 0x00]); // one func, type 0
    bytes.extend_from_slice(&[0x07, 0x0A, 0x01, 0x06, b's', b'q', b'u', b'a', b'r', b'e', 0x00, 0x00]); // export "square" func 0
    let module = parse(&bytes).unwrap();
    assert_eq!(
        module.exports,
        vec![Export { name: "square".to_string(), kind: ExternKind::Func, index: 0 }]
    );
    assert_eq!(module.export_func("square"), Some(0));
    assert_eq!(module.export_func("missing"), None);
    assert_eq!(
        module.func_type(0),
        Some(&FuncType { params: vec![ValType::I32], results: vec![ValType::I32] })
    );
    assert_eq!(module.describe_exports(), vec!["func square: (i32) -> i32".to_string()]);
}

#[test]
fn rejects_an_invalid_export_kind() {
    let mut bytes = header();
    bytes.extend_from_slice(&[0x07, 0x05, 0x01, 0x01, b'x', 0x04, 0x00]); // kind 4 does not exist
    let kind_offset = bytes.len() - 2;
    assert_eq!(
        parse(&bytes),
        Err(ParseError { offset: kind_offset, kind: ParseErrorKind::InvalidExternKind(4) })
    );
}

#[test]
fn parses_a_start_section() {
    let mut bytes = header();
    bytes.extend_from_slice(&[0x01, 0x04, 0x01, 0x60, 0x00, 0x00]); // type 0
    bytes.extend_from_slice(&[0x03, 0x02, 0x01, 0x00]); // one func, type 0
    bytes.extend_from_slice(&[0x08, 0x01, 0x00]); // start: func 0
    let module = parse(&bytes).unwrap();
    assert_eq!(module.start, Some(0));
}

#[test]
fn imported_functions_occupy_the_low_end_of_the_function_index_space() {
    let mut bytes = header();
    bytes.extend_from_slice(&[0x01, 0x04, 0x01, 0x60, 0x00, 0x00]); // type 0: () -> ()
    bytes.extend_from_slice(&[
        0x02, 0x0B, 0x01, 0x03, b'e', b'n', b'v', 0x03, b'l', b'o', b'g', 0x00, 0x00,
    ]); // import 0: func, type 0
    bytes.extend_from_slice(&[0x03, 0x02, 0x01, 0x00]); // local func at index 1, type 0
    let module = parse(&bytes).unwrap();
    assert_eq!(module.imported_func_count(), 1);
    assert_eq!(module.func_type(0), Some(&FuncType { params: vec![], results: vec![] }));
    assert_eq!(module.func_type(1), Some(&FuncType { params: vec![], results: vec![] }));
    assert_eq!(module.func_type(2), None);
}

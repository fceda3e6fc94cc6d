use wasm_binary::parse::parse_header;
use wasm_binary::{
    decode, parse, BlockType, DecodeError, DecodeErrorKind, Export, ExternKind, Func, FuncType,
    Import, ImportDesc, Instr, Module, ParseError, ParseErrorKind, ValType,
};

const HEADER: [u8; 8] = [0x00, 0x61, 0x73, 0x6D, 0x01, 0x00, 0x00, 0x00];
const TYPES: [u8; 8] = [0x01, 0x06, 0x01, 0x60, 0x01, 0x7F, 0x01, 0x7E];
const IMPORTS: [u8; 9] = [0x02, 0x07, 0x01, 0x01, b'e', 0x01, b'f', 0x00, 0x00];
const FUNCS: [u8; 4] = [0x03, 0x02, 0x01, 0x00];
const MEMORY: [u8; 5] = [0x05, 0x03, 0x01, 0x00, 0x01];
const EXPORTS: [u8; 7] = [0x07, 0x05, 0x01, 0x01, b'x', 0x00, 0x01];
const START: [u8; 3] = [0x08, 0x01, 0x01];
const CODE: [u8; 6] = [0x0A, 0x04, 0x01, 0x02, 0x00, 0x0B];
const CUSTOM: [u8; 7] = [0x00, 0x05, 0x02, b'h', b'i', 0xDE, 0xAD];

fn join(parts: &[&[u8]]) -> Vec<u8> {
    let mut bytes = Vec::new();
    for part in parts {
        bytes.extend_from_slice(part);
    }
    bytes
}

fn sample() -> Vec<u8> {
    join(&[&HEADER, &TYPES, &IMPORTS, &FUNCS, &MEMORY, &EXPORTS, &START, &CODE])
}

fn sample_module() -> Module {
    Module {
        types: vec![FuncType { params: vec![ValType::I32], results: vec![ValType::I64] }],
        imports: vec![Import {
            module: "e".to_string(),
            name: "f".to_string(),
            desc: ImportDesc::Func(0),
        }],
        funcs: vec![Func { type_idx: 0 }],
        exports: vec![Export { name: "x".to_string(), kind: ExternKind::Func, index: 1 }],
        start: Some(1),
        custom_sections: vec![],
        skipped_sections: vec![5, 10],
    }
}

#[test]
fn a_module_that_was_written_is_read_back() {
    assert_eq!(parse(&sample()), Ok(sample_module()));
}

#[test]
fn a_header_is_its_first_eight_bytes() {
    assert_eq!(parse_header(&sample()), Ok(8));
    for i in 0..8 {
        let mut bytes = sample();
        bytes[i] ^= 0x10;
        assert!(parse_header(&bytes).is_err());
        assert_eq!(
            parse_header(&HEADER[..i]),
            Err(ParseError { offset: i, kind: ParseErrorKind::UnexpectedEof })
        );
    }
}

#[test]
fn errors_lie_within_the_input() {
    let bytes = sample();
    for len in 0..bytes.len() {
        if let Err(e) = parse(&bytes[..len]) {
            assert!(e.offset <= len);
        }
        for flip in [0x01, 0x40, 0xFF] {
            let mut changed = bytes.clone();
            changed[len] ^= flip;
            if let Err(e) = parse(&changed) {
                assert!(e.offset <= changed.len());
            }
        }
    }
}

#[test]
fn every_function_of_a_parsed_module_has_a_type() {
    let module = parse(&sample()).unwrap();
    assert_eq!(module.imported_func_count(), 1);
    assert_eq!(module.func_type(0), Some(&module.types[0]));
    assert_eq!(module.func_type(1), Some(&module.types[0]));
    assert_eq!(module.func_type(2), None);
    assert_eq!(module.func_type(u32::MAX), None);
}

#[test]
fn imported_functions_come_before_local_ones() {
    let signature = |t: ValType| FuncType { params: vec![], results: vec![t] };
    let import = |desc: ImportDesc| Import { module: String::new(), name: String::new(), desc };
    let module = Module {
        types: vec![signature(ValType::I32), signature(ValType::I64), signature(ValType::F32)],
        imports: vec![
            import(ImportDesc::Memory),
            import(ImportDesc::Func(2)),
            import(ImportDesc::Global),
            import(ImportDesc::Func(1)),
            import(ImportDesc::Table),
        ],
        funcs: vec![Func { type_idx: 0 }, Func { type_idx: 9 }],
        ..Module::default()
    };
    assert_eq!(module.imported_func_count(), 2);
    assert_eq!(module.func_type(0), Some(&signature(ValType::F32)));
    assert_eq!(module.func_type(1), Some(&signature(ValType::I64)));
    assert_eq!(module.func_type(2), Some(&signature(ValType::I32)));
    assert_eq!(module.func_type(3), None); // its type index is out of range
    assert_eq!(module.func_type(4), None);
}

#[test]
fn a_custom_section_only_adds_its_name() {
    let parts: [&[u8]; 8] =
        [&HEADER, &TYPES, &IMPORTS, &FUNCS, &MEMORY, &EXPORTS, &START, &CODE];
    let expected = Module { custom_sections: vec!["hi".to_string()], ..sample_module() };
    for i in 1..=parts.len() {
        let bytes = join(&[&join(&parts[..i]), &CUSTOM, &join(&parts[i..])]);
        assert_eq!(parse(&bytes), Ok(expected.clone()));
    }
    let first = [0x00, 0x02, 0x01, b'a'];
    let last = [0x00, 0x02, 0x01, b'z'];
    let module = parse(&join(&[&HEADER, &first, &CUSTOM, &TYPES, &last])).unwrap();
    assert_eq!(module.custom_sections, vec!["a", "hi", "z"]);
    // the same error, moved by the length of the custom section
    let error = parse(&join(&[&HEADER, &FUNCS])).unwrap_err();
    assert_eq!(
        parse(&join(&[&HEADER, &CUSTOM, &FUNCS])),
        Err(ParseError { offset: error.offset + CUSTOM.len(), kind: error.kind })
    );
}

#[test]
fn content_that_is_not_interpreted_does_not_matter() {
    let code = [0x0A, 0x04, 0xFF, 0xFF, 0xFF, 0xFF];
    let bytes = join(&[&HEADER, &TYPES, &IMPORTS, &FUNCS, &MEMORY, &EXPORTS, &START, &code]);
    assert_eq!(parse(&bytes), Ok(sample_module()));
    let custom = [0x00, 0x05, 0x02, b'h', b'i', 0x00, 0xFF];
    assert_eq!(
        parse(&join(&[&HEADER, &custom, &TYPES])),
        parse(&join(&[&HEADER, &CUSTOM, &TYPES]))
    );
}

#[test]
fn sections_out_of_order_are_rejected_at_their_first_byte() {
    let bytes = sample();
    for id in 1..=10u8 {
        // whatever its content: a section of no bytes would not parse either
        let section = [id, 0x00];
        assert_eq!(
            parse(&join(&[&bytes, &section, &[0xFF]])),
            Err(ParseError { offset: bytes.len(), kind: ParseErrorKind::SectionOutOfOrder })
        );
    }
    let more = parse(&join(&[&bytes, &[0x0B, 0x00, 0x0C, 0x00]])).unwrap();
    assert_eq!(more.skipped_sections, vec![5, 10, 11, 12]);
}

#[test]
fn unknown_sections_are_rejected_at_their_first_byte() {
    let bytes = sample();
    for id in [13u8, 14, 127, 255] {
        assert_eq!(
            parse(&join(&[&bytes, &[id, 0x00], &CUSTOM])),
            Err(ParseError { offset: bytes.len(), kind: ParseErrorKind::UnknownSectionId(id) })
        );
    }
}

#[test]
fn the_first_function_export_of_a_name_counts() {
    let export = |name: &str, kind: ExternKind, index: u32| Export {
        name: name.to_string(),
        kind,
        index,
    };
    let module = Module {
        exports: vec![
            export("a", ExternKind::Global, 1),
            export("b", ExternKind::Func, 2),
            export("a", ExternKind::Func, 3),
            export("a", ExternKind::Func, 4),
        ],
        ..Module::default()
    };
    assert_eq!(module.export_func("a"), Some(3));
    assert_eq!(module.export_func("b"), Some(2));
    assert_eq!(module.export_func(""), None);
}

#[test]
fn every_export_is_described_in_order() {
    let export = |name: &str, kind: ExternKind, index: u32| Export {
        name: name.to_string(),
        kind,
        index,
    };
    let module = Module {
        types: vec![FuncType { params: vec![ValType::F32, ValType::F64], results: vec![] }],
        funcs: vec![Func { type_idx: 0 }],
        exports: vec![
            export("t", ExternKind::Table, 0),
            export("m", ExternKind::Memory, 0),
            export("g", ExternKind::Global, 0),
            export("f", ExternKind::Func, 0),
            export("none", ExternKind::Func, 1),
        ],
        ..Module::default()
    };
    assert_eq!(
        module.describe_exports(),
        vec![
            "table t",
            "memory m",
            "global g",
            "func f: (f32, f64) -> ()",
            "func none: <type index out of range>",
        ]
    );
    assert_eq!(Module::default().describe_exports(), Vec::<String>::new());
}

#[test]
fn instructions_that_were_written_are_read_back() {
    let body = [
        0x02, 0x40, 0x03, 0x7C, 0x04, 0x7D, 0x05, 0x0B, // blocks
        0x0C, 0x80, 0x01, 0x0D, 0x00, 0x10, 0x03, 0x0F, // branches
        0x20, 0xFF, 0xFF, 0xFF, 0xFF, 0x0F, 0x21, 0x01, 0x22, 0x02, // locals
        0x41, 0x80, 0x80, 0x80, 0x80, 0x78, 0x42, 0x7F, // constants
        0x00, 0x01, 0x1A, 0x1B, 0x45, 0x5A, 0x67, 0x8A, 0x01, 0xA7, 0xAC, 0xAD, // plain
    ];
    assert_eq!(
        decode(&body),
        Ok(vec![
            Instr::Block(BlockType::Empty),
            Instr::Loop(BlockType::Value(ValType::F64)),
            Instr::If(BlockType::Value(ValType::F32)),
            Instr::Else,
            Instr::End,
            Instr::Br(128),
            Instr::BrIf(0),
            Instr::Call(3),
            Instr::Return,
            Instr::LocalGet(u32::MAX),
            Instr::LocalSet(1),
            Instr::LocalTee(2),
            Instr::I32Const(i32::MIN),
            Instr::I64Const(-1),
            Instr::Unreachable,
            Instr::Nop,
            Instr::Drop,
            Instr::Select,
            Instr::I32Eqz,
            Instr::I64GeU,
            Instr::I32Clz,
            Instr::I64Rotr,
            Instr::Nop,
            Instr::I32WrapI64,
            Instr::I64ExtendI32S,
            Instr::I64ExtendI32U,
        ])
    );
    assert_eq!(decode(&[]), Ok(vec![]));
}

#[test]
fn every_byte_opens_one_instruction_or_none() {
    let mut seen: Vec<Instr> = Vec::new();
    for opcode in 0..=255u8 {
        match decode(&[opcode, 0x7F]) {
            Ok(instrs) => {
                // where the second byte is no immediate, it is `i64.div_s`
                assert!(instrs.len() == 1 || instrs[1..] == [Instr::I64DivS]);
                assert!(!seen.contains(&instrs[0]));
                seen.push(instrs[0]);
            }
            Err(e) => assert_eq!(
                e,
                DecodeError { offset: 0, kind: DecodeErrorKind::UnsupportedOpcode(opcode) }
            ),
        }
    }
    assert_eq!(seen.len(), 79);
}

#[test]
fn bodies_decode_one_after_the_other() {
    let first = [0x20, 0x00, 0x41, 0x05, 0x6A];
    let second = [0x21, 0x01, 0x0B];
    let mut both = decode(&first).unwrap();
    both.extend_from_slice(&decode(&second).unwrap());
    assert_eq!(decode(&join(&[&first, &second])), Ok(both));
    assert_eq!(
        decode(&join(&[&first, &[0x01, 0xFE]])),
        Err(DecodeError { offset: 6, kind: DecodeErrorKind::UnsupportedOpcode(0xFE) })
    );
}

#[test]
fn faults_of_a_body_lie_within_it() {
    let body = [0x02, 0x7F, 0x41, 0x80, 0x01, 0x10, 0xFF, 0x01, 0x0B, 0x0B];
    for len in 0..=body.len() {
        match decode(&body[..len]) {
            Ok(instrs) => assert!(instrs.len() <= len),
            Err(e) => assert!(e.offset <= len),
        }
    }
}

#[test]
fn block_types_use_the_bytes_of_value_types() {
    for byte in 0..0x80u8 {
        let expected = match ValType::from_byte(byte) {
            Some(t) => Ok(vec![Instr::Block(BlockType::Value(t))]),
            None if byte == 0x40 => Ok(vec![Instr::Block(BlockType::Empty)]),
            None => Err(DecodeError { offset: 1, kind: DecodeErrorKind::UnsupportedBlockType }),
        };
        assert_eq!(decode(&[0x02, byte]), expected);
    }
    // the same integers, written with a padding byte
    assert_eq!(decode(&[0x02, 0xFF, 0x7F]), Ok(vec![Instr::Block(BlockType::Value(ValType::I32))]));
}

#[test]
fn an_empty_module_declares_nothing() {
    let module = Module::default();
    assert_eq!(module.imported_func_count(), 0);
    assert_eq!(module.func_type(0), None);
    assert_eq!(module.export_func(""), None);
    assert_eq!(parse(&HEADER), Ok(module));
}

#[test]
fn everything_before_a_fault_decodes() {
    let body = [0x20, 0x00, 0x41, 0x7F, 0x6A];
    let before = decode(&body).unwrap();
    // an unsupported opcode is reported where it stands
    let error = decode(&join(&[&body, &[0x28, 0x0B]])).unwrap_err();
    assert_eq!(
        error,
        DecodeError { offset: 5, kind: DecodeErrorKind::UnsupportedOpcode(0x28) }
    );
    assert_eq!(decode(&body[..error.offset]), Ok(before.clone()));
    // a bad block type is reported right after its opcode
    let error = decode(&join(&[&body, &[0x03, 0x05, 0x0B]])).unwrap_err();
    assert_eq!(error, DecodeError { offset: 6, kind: DecodeErrorKind::UnsupportedBlockType });
    assert_eq!(decode(&body[..error.offset - 1]), Ok(before));
}

#[test]
fn imports_and_functions_only_need_the_types_they_name() {
    let three = [0x01, 0x0A, 0x03, 0x60, 0x00, 0x00, 0x60, 0x00, 0x00, 0x60, 0x00, 0x00];
    let one = [0x01, 0x04, 0x01, 0x60, 0x00, 0x00];
    let few = parse(&join(&[&HEADER, &one, &IMPORTS, &FUNCS])).unwrap();
    let many = parse(&join(&[&HEADER, &three, &IMPORTS, &FUNCS])).unwrap();
    assert_eq!(few.imports, sample_module().imports);
    assert_eq!(many.imports, few.imports);
    assert_eq!(many.funcs, few.funcs);
}

#[test]
fn type_sections_are_read_back_and_end_with_their_last_type() {
    let content: [u8; 16] = [
        0x03, // three types
        0x60, 0x00, 0x00, // () -> ()
        0x60, 0x02, 0x7F, 0x7E, 0x01, 0x7D, // (i32, i64) -> f32
        0x60, 0x01, 0x7C, 0x02, 0x7F, 0x7F, // (f64) -> (i32, i32)
    ];
    let module = parse(&join(&[&HEADER, &[0x01, 16], &content])).unwrap();
    assert_eq!(
        module.types,
        vec![
            FuncType { params: vec![], results: vec![] },
            FuncType { params: vec![ValType::I32, ValType::I64], results: vec![ValType::F32] },
            FuncType { params: vec![ValType::F64], results: vec![ValType::I32, ValType::I32] },
        ]
    );
    for extra in 1..=3u8 {
        let more = vec![0x60; extra as usize];
        assert_eq!(
            parse(&join(&[&HEADER, &[0x01, 16 + extra], &content, &more])),
            Err(ParseError { offset: 10 + 16, kind: ParseErrorKind::SectionSizeMismatch })
        );
    }
}

#[test]
fn export_sections_are_read_back_with_duplicates_and_any_index() {
    let content: [u8; 21] = [
        0x05, // five exports
        0x01, b'a', 0x00, 0x7F, // function 127, which does not exist
        0x01, b'a', 0x00, 0x7F, // the same again
        0x01, b'b', 0x01, 0x00, // a table
        0x00, 0x02, 0x01, // a memory without a name
        0x02, b'g', b'h', 0x03, 0x02, // a global
    ];
    let export = |name: &str, kind: ExternKind, index: u32| Export {
        name: name.to_string(),
        kind,
        index,
    };
    let module = parse(&join(&[&HEADER, &[0x07, 21], &content])).unwrap();
    assert_eq!(
        module.exports,
        vec![
            export("a", ExternKind::Func, 127),
            export("a", ExternKind::Func, 127),
            export("b", ExternKind::Table, 0),
            export("", ExternKind::Memory, 1),
            export("gh", ExternKind::Global, 2),
        ]
    );
    assert_eq!(
        parse(&join(&[&HEADER, &[0x07, 22], &content, &[0x00]])),
        Err(ParseError { offset: 10 + 21, kind: ParseErrorKind::SectionSizeMismatch })
    );
}

#[test]
fn missing_sections_leave_their_part_of_the_module_empty() {
    let whole = sample_module();
    assert_eq!(
        parse(&join(&[&HEADER, &TYPES])),
        Ok(Module { types: whole.types.clone(), ..Module::default() })
    );
    assert_eq!(
        parse(&join(&[&HEADER, &EXPORTS, &START])),
        Ok(Module { exports: whole.exports, start: whole.start, ..Module::default() })
    );
    assert_eq!(
        parse(&join(&[&HEADER, &TYPES, &FUNCS, &CODE])),
        Ok(Module {
            types: whole.types,
            funcs: whole.funcs,
            skipped_sections: vec![10],
            ..Module::default()
        })
    );
}

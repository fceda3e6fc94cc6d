use wasm_binary::instr::{decode, BlockType, DecodeError, DecodeErrorKind, Instr};
use wasm_binary::leb::LebError;
use wasm_binary::types::ValType;

#[test]
fn decodes_the_square_function_body() {
    // local.get 0, local.get 0, i32.mul, end - the body from the
    // README's `square` example.
    let body = [0x20, 0x00, 0x20, 0x00, 0x6C, 0x0B];
    assert_eq!(
        decode(&body),
        Ok(vec![Instr::LocalGet(0), Instr::LocalGet(0), Instr::I32Mul, Instr::End])
    );
}

#[test]
fn decodes_consts_and_arithmetic() {
    let body = [0x41, 0x7F, 0x42, 0x80, 0x01, 0x6A, 0x0B]; // i32.const -1, i64.const 128, i32.add, end
    assert_eq!(
        decode(&body),
        Ok(vec![Instr::I32Const(-1), Instr::I64Const(128), Instr::I32Add, Instr::End])
    );
}

#[test]
fn decodes_nested_block_loop_if_else_with_block_types() {
    // block (i32) loop i32.const 0 if else end end end
    let body = [
        0x02, 0x7F, // block (result i32)
        0x03, 0x40, // loop
        0x41, 0x00, // i32.const 0
        0x04, 0x40, // if
        0x05, // else
        0x0B, // end (if)
        0x0B, // end (loop)
        0x0B, // end (block)
    ];
    assert_eq!(
        decode(&body),
        Ok(vec![
            Instr::Block(BlockType::Value(ValType::I32)),
            Instr::Loop(BlockType::Empty),
            Instr::I32Const(0),
            Instr::If(BlockType::Empty),
            Instr::Else,
            Instr::End,
            Instr::End,
            Instr::End,
        ])
    );
}

#[test]
fn decodes_branches_and_calls() {
    let body = [0x0C, 0x02, 0x0D, 0x01, 0x10, 0x03, 0x0F, 0x0B]; // br 2, br_if 1, call 3, return, end
    assert_eq!(
        decode(&body),
        Ok(vec![Instr::Br(2), Instr::BrIf(1), Instr::Call(3), Instr::Return, Instr::End])
    );
}

#[test]
fn rejects_an_unsupported_opcode() {
    let body = [0x01, 0x28, 0x0B]; // nop, i32.load (no memory support), end
    assert_eq!(
        decode(&body),
        Err(DecodeError { offset: 1, kind: DecodeErrorKind::UnsupportedOpcode(0x28) })
    );
}

#[test]
fn rejects_a_multi_value_block_type() {
    let body = [0x02, 0x00, 0x0B, 0x0B]; // block (type 0) end end - type index, not empty/value
    assert_eq!(
        decode(&body),
        Err(DecodeError { offset: 1, kind: DecodeErrorKind::UnsupportedBlockType })
    );
}

#[test]
fn rejects_a_truncated_immediate() {
    let body = [0x20]; // local.get with no index byte
    assert_eq!(
        decode(&body),
        Err(DecodeError { offset: 1, kind: DecodeErrorKind::Leb(LebError::UnexpectedEof) })
    );
}

//! Decodes a function body's raw instruction bytes into a flat `Vec<Instr>`.
//!
//! This does not build a tree out of `block`/`loop`/`if`/`else`/`end` - those
//! stay as individual instructions in the flat sequence, the same shape the
//! binary format itself uses. Matching a `br` or `br_if` target to the block
//! it exits, and matching an `if` to its `else`, is for whoever walks the
//! sequence, not something resolved up front here. What this module guarantees
//! is narrower: every opcode is one this crate supports, every immediate
//! decoded cleanly, and nothing was left unread at the end of the body.

use crate::fault::Fault;
use crate::leb;
use crate::leb::LebError;
use crate::text;
use crate::types::ValType;
use vstd::prelude::*;
use vstd::string::*;

verus! {

/// A block's signature: what it leaves on the stack when it completes.
///
/// The binary format also allows a block type to be a type index into the
/// module's type section, for blocks with more than one result (the
/// multi-value proposal). This crate does not support those: `decode` reports
/// any such index as `DecodeErrorKind::UnsupportedBlockType` rather than a
/// variant here.
#[derive(Debug, Clone, Copy, PartialEq, Eq, Structural)]
pub enum BlockType {
    Empty,
    Value(ValType),
}

/// One decoded instruction. Variants map one-to-one to opcodes.
#[derive(Debug, Clone, Copy, PartialEq, Eq, Structural)]
pub enum Instr {
    Unreachable,
    Nop,
    Block(BlockType),
    Loop(BlockType),
    If(BlockType),
    Else,
    End,
    Br(u32),
    BrIf(u32),
    Return,
    Call(u32),

    Drop,
    Select,

    LocalGet(u32),
    LocalSet(u32),
    LocalTee(u32),

    I32Const(i32),
    I64Const(i64),

    I32Eqz,
    I32Eq,
    I32Ne,
    I32LtS,
    I32LtU,
    I32GtS,
    I32GtU,
    I32LeS,
    I32LeU,
    I32GeS,
    I32GeU,
    I32Clz,
    I32Ctz,
    I32Popcnt,
    I32Add,
    I32Sub,
    I32Mul,
    I32DivS,
    I32DivU,
    I32RemS,
    I32RemU,
    I32And,
    I32Or,
    I32Xor,
    I32Shl,
    I32ShrS,
    I32ShrU,
    I32Rotl,
    I32Rotr,

    I64Eqz,
    I64Eq,
    I64Ne,
    I64LtS,
    I64LtU,
    I64GtS,
    I64GtU,
    I64LeS,
    I64LeU,
    I64GeS,
    I64GeU,
    I64Clz,
    I64Ctz,
    I64Popcnt,
    I64Add,
    I64Sub,
    I64Mul,
    I64DivS,
    I64DivU,
    I64RemS,
    I64RemU,
    I64And,
    I64Or,
    I64Xor,
    I64Shl,
    I64ShrS,
    I64ShrU,
    I64Rotl,
    I64Rotr,

    I32WrapI64,
    I64ExtendI32S,
    I64ExtendI32U,
}

/// Why decoding a function body failed, and where.
#[derive(Debug, Clone, Copy, PartialEq, Eq, Structural)]
pub struct DecodeError {
    /// The byte offset within the body that broke.
    pub offset: usize,
    pub kind: DecodeErrorKind,
}

#[derive(Debug, Clone, Copy, PartialEq, Eq, Structural)]
pub enum DecodeErrorKind {
    /// An immediate (a label depth, a local index, a const value, a block
    /// type) failed to decode as LEB128.
    Leb(LebError),
    /// A byte that was supposed to open an instruction is not one this crate
    /// supports - either not part of the WebAssembly MVP opcode set, or
    /// part of it but outside what is decoded here (memory, globals,
    /// `call_indirect`, `br_table`, floats).
    UnsupportedOpcode(u8),
    /// A block type named a type index rather than empty or a single value
    /// type. That is only meaningful for the multi-value proposal, which
    /// this crate does not support.
    UnsupportedBlockType,
}

impl View for DecodeError {
    type V = Fault<DecodeErrorKind>;

    open spec fn view(&self) -> Fault<DecodeErrorKind> {
        Fault { offset: self.offset as int, kind: self.kind }
    }
}

impl DecodeErrorKind {
    /// The message for people.
    pub open spec fn text(self) -> Seq<char> {
        match self {
            DecodeErrorKind::Leb(e) => e.text(),
            DecodeErrorKind::UnsupportedOpcode(byte) => "unsupported opcode "@ + text::hex(byte),
            DecodeErrorKind::UnsupportedBlockType => "unsupported block type (multi-value)"@,
        }
    }

    /// The message for people.
    pub fn to_string(&self) -> (res: String)
        ensures
            res@ == self.text(),
    {
        match self {
            DecodeErrorKind::Leb(e) => e.to_string(),
            DecodeErrorKind::UnsupportedOpcode(byte) => {
                let mut message: String = String::from_str("unsupported opcode ");
                text::append_hex(&mut message, *byte);
                message
            },
            DecodeErrorKind::UnsupportedBlockType => String::from_str(
                "unsupported block type (multi-value)",
            ),
        }
    }
}

impl DecodeError {
    /// The message for people: where, then why.
    pub fn to_string(&self) -> (res: String)
        ensures
            res@ == "at instruction byte "@ + text::decimal(self.offset as int) + ": "@
                + self.kind.text(),
    {
        let mut message: String = String::from_str("at instruction byte ");
        text::append_decimal(&mut message, self.offset);
        message.append(": ");
        message.append(self.kind.to_string().as_str());
        message
    }
}

/// What decoding something at a position comes to: it, and the position after
/// it, or the fault.
pub type Decoded<T> = Result<(T, int), Fault<DecodeErrorKind>>;

/// An immediate that was read as a LEB128 integer. A failure is placed at the
/// first byte of the immediate.
pub open spec fn immediate(reading: leb::Reading, pos: int) -> Decoded<int> {
    match reading {
        Ok((value, next)) => Ok((value, next)),
        Err((error, _)) => Err(Fault { offset: pos, kind: DecodeErrorKind::Leb(error) }),
    }
}

/// The block type that an integer stands for: `-64` is the byte `0x40`, `-1`
/// to `-4` are the bytes of the value types, and everything else is a type
/// index or nothing at all.
pub open spec fn block_type(value: int) -> Option<BlockType> {
    if value == -64 {
        Some(BlockType::Empty)
    } else if value == -1 {
        Some(BlockType::Value(ValType::I32))
    } else if value == -2 {
        Some(BlockType::Value(ValType::I64))
    } else if value == -3 {
        Some(BlockType::Value(ValType::F32))
    } else if value == -4 {
        Some(BlockType::Value(ValType::F64))
    } else {
        None
    }
}

/// The block type at `pos`, which is read as a 33-bit signed integer.
pub open spec fn block_type_at(body: Seq<u8>, pos: int) -> Decoded<BlockType> {
    match immediate(leb::signed_at(body, pos, 33), pos) {
        Ok((value, next)) => match block_type(value) {
            Some(b) => Ok((b, next)),
            None => Err(Fault { offset: pos, kind: DecodeErrorKind::UnsupportedBlockType }),
        },
        Err(fault) => Err(fault),
    }
}

/// The instruction of an opcode that takes no immediate.
pub open spec fn plain_instr(opcode: u8) -> Option<Instr> {
    match opcode {
        0x00 => Some(Instr::Unreachable),
        0x01 => Some(Instr::Nop),
        0x05 => Some(Instr::Else),
        0x0B => Some(Instr::End),
        0x0F => Some(Instr::Return),
        0x1A => Some(Instr::Drop),
        0x1B => Some(Instr::Select),
        0x45 => Some(Instr::I32Eqz),
        0x46 => Some(Instr::I32Eq),
        0x47 => Some(Instr::I32Ne),
        0x48 => Some(Instr::I32LtS),
        0x49 => Some(Instr::I32LtU),
        0x4A => Some(Instr::I32GtS),
        0x4B => Some(Instr::I32GtU),
        0x4C => Some(Instr::I32LeS),
        0x4D => Some(Instr::I32LeU),
        0x4E => Some(Instr::I32GeS),
        0x4F => Some(Instr::I32GeU),
        0x50 => Some(Instr::I64Eqz),
        0x51 => Some(Instr::I64Eq),
        0x52 => Some(Instr::I64Ne),
        0x53 => Some(Instr::I64LtS),
        0x54 => Some(Instr::I64LtU),
        0x55 => Some(Instr::I64GtS),
        0x56 => Some(Instr::I64GtU),
        0x57 => Some(Instr::I64LeS),
        0x58 => Some(Instr::I64LeU),
        0x59 => Some(Instr::I64GeS),
        0x5A => Some(Instr::I64GeU),
        0x67 => Some(Instr::I32Clz),
        0x68 => Some(Instr::I32Ctz),
        0x69 => Some(Instr::I32Popcnt),
        0x6A => Some(Instr::I32Add),
        0x6B => Some(Instr::I32Sub),
        0x6C => Some(Instr::I32Mul),
        0x6D => Some(Instr::I32DivS),
        0x6E => Some(Instr::I32DivU),
        0x6F => Some(Instr::I32RemS),
        0x70 => Some(Instr::I32RemU),
        0x71 => Some(Instr::I32And),
        0x72 => Some(Instr::I32Or),
        0x73 => Some(Instr::I32Xor),
        0x74 => Some(Instr::I32Shl),
        0x75 => Some(Instr::I32ShrS),
        0x76 => Some(Instr::I32ShrU),
        0x77 => Some(Instr::I32Rotl),
        0x78 => Some(Instr::I32Rotr),
        0x79 => Some(Instr::I64Clz),
        0x7A => Some(Instr::I64Ctz),
        0x7B => Some(Instr::I64Popcnt),
        0x7C => Some(Instr::I64Add),
        0x7D => Some(Instr::I64Sub),
        0x7E => Some(Instr::I64Mul),
        0x7F => Some(Instr::I64DivS),
        0x80 => Some(Instr::I64DivU),
        0x81 => Some(Instr::I64RemS),
        0x82 => Some(Instr::I64RemU),
        0x83 => Some(Instr::I64And),
        0x84 => Some(Instr::I64Or),
        0x85 => Some(Instr::I64Xor),
        0x86 => Some(Instr::I64Shl),
        0x87 => Some(Instr::I64ShrS),
        0x88 => Some(Instr::I64ShrU),
        0x89 => Some(Instr::I64Rotl),
        0x8A => Some(Instr::I64Rotr),
        0xA7 => Some(Instr::I32WrapI64),
        0xAC => Some(Instr::I64ExtendI32S),
        0xAD => Some(Instr::I64ExtendI32U),
        _ => None,
    }
}

/// An instruction made from its decoded immediate.
pub open spec fn with_immediate<T>(decoded: Decoded<T>, make: spec_fn(T) -> Instr) -> Decoded<
    Instr,
> {
    match decoded {
        Ok((value, next)) => Ok((make(value), next)),
        Err(fault) => Err(fault),
    }
}

/// The index immediate (of a label, a function or a local) at `pos`.
pub open spec fn index_at(body: Seq<u8>, pos: int) -> Decoded<int> {
    immediate(leb::unsigned_at(body, pos, 32), pos)
}

/// The instruction at `pos`.
pub open spec fn instr_at(body: Seq<u8>, pos: int) -> Decoded<Instr> {
    let opcode = body[pos];
    let at = pos + 1;
    if opcode == 0x02 {
        with_immediate(block_type_at(body, at), |b: BlockType| Instr::Block(b))
    } else if opcode == 0x03 {
        with_immediate(block_type_at(body, at), |b: BlockType| Instr::Loop(b))
    } else if opcode == 0x04 {
        with_immediate(block_type_at(body, at), |b: BlockType| Instr::If(b))
    } else if opcode == 0x0C {
        with_immediate(index_at(body, at), |v: int| Instr::Br(v as u32))
    } else if opcode == 0x0D {
        with_immediate(index_at(body, at), |v: int| Instr::BrIf(v as u32))
    } else if opcode == 0x10 {
        with_immediate(index_at(body, at), |v: int| Instr::Call(v as u32))
    } else if opcode == 0x20 {
        with_immediate(index_at(body, at), |v: int| Instr::LocalGet(v as u32))
    } else if opcode == 0x21 {
        with_immediate(index_at(body, at), |v: int| Instr::LocalSet(v as u32))
    } else if opcode == 0x22 {
        with_immediate(index_at(body, at), |v: int| Instr::LocalTee(v as u32))
    } else if opcode == 0x41 {
        with_immediate(
            immediate(leb::signed_at(body, at, 32), at),
            |v: int| Instr::I32Const(v as i32),
        )
    } else if opcode == 0x42 {
        with_immediate(
            immediate(leb::signed_at(body, at, 64), at),
            |v: int| Instr::I64Const(v as i64),
        )
    } else {
        match plain_instr(opcode) {
            Some(instr) => Ok((instr, at)),
            None => Err(
                Fault { offset: pos, kind: DecodeErrorKind::UnsupportedOpcode(opcode) },
            ),
        }
    }
}

/// An instruction takes at least its opcode, and nothing past the end of the
/// body; a fault lies within the body, or at its end where an immediate is
/// missing.
pub proof fn lemma_instr_bounds(body: Seq<u8>, pos: int)
    requires
        0 <= pos < body.len(),
    ensures
        instr_at(body, pos) matches Ok((_, next)) ==> pos < next <= body.len(),
        instr_at(body, pos) matches Err(fault) ==> pos <= fault.offset <= body.len(),
{
    leb::law_signed_fits(body, pos + 1, 33);
    leb::law_unsigned_fits(body, pos + 1, 32);
    leb::law_signed_fits(body, pos + 1, 32);
    leb::law_signed_fits(body, pos + 1, 64);
}

/// The instructions from `pos` to the end of the body.
pub open spec fn instrs_from(body: Seq<u8>, pos: int) -> Result<
    Seq<Instr>,
    Fault<DecodeErrorKind>,
>
    decreases body.len() - pos,
{
    if !(0 <= pos < body.len()) {
        Ok(Seq::empty())
    } else {
        proof {
            lemma_instr_bounds(body, pos);
        }
        match instr_at(body, pos) {
            Ok((instr, next)) => match instrs_from(body, next) {
                Ok(rest) => Ok(seq![instr] + rest),
                Err(fault) => Err(fault),
            },
            Err(fault) => Err(fault),
        }
    }
}

fn read_u32(body: &[u8], pos: &mut usize) -> (res: Result<u32, DecodeError>)
    ensures
        match index_at(body@, *old(pos) as int) {
            Ok((value, next)) => res matches Ok(v) && v == value && *final(pos) == next,
            Err(fault) => res matches Err(e) && e@ == fault,
        },
{
    let offset: usize = *pos;
    match leb::read_u32(body, pos) {
        Ok(value) => Ok(value),
        Err(e) => Err(DecodeError { offset, kind: DecodeErrorKind::Leb(e) }),
    }
}

fn read_i32(body: &[u8], pos: &mut usize) -> (res: Result<i32, DecodeError>)
    ensures
        match immediate(leb::signed_at(body@, *old(pos) as int, 32), *old(pos) as int) {
            Ok((value, next)) => res matches Ok(v) && v == value && *final(pos) == next,
            Err(fault) => res matches Err(e) && e@ == fault,
        },
{
    let offset: usize = *pos;
    match leb::read_i32(body, pos) {
        Ok(value) => Ok(value),
        Err(e) => Err(DecodeError { offset, kind: DecodeErrorKind::Leb(e) }),
    }
}

fn read_i64(body: &[u8], pos: &mut usize) -> (res: Result<i64, DecodeError>)
    ensures
        match immediate(leb::signed_at(body@, *old(pos) as int, 64), *old(pos) as int) {
            Ok((value, next)) => res matches Ok(v) && v == value && *final(pos) == next,
            Err(fault) => res matches Err(e) && e@ == fault,
        },
{
    let offset: usize = *pos;
    match leb::read_i64(body, pos) {
        Ok(value) => Ok(value),
        Err(e) => Err(DecodeError { offset, kind: DecodeErrorKind::Leb(e) }),
    }
}

/// Decodes a block type: `0x40` (empty), a value type byte (a single
/// result), or an `s33` type index (unsupported here). All three share one
/// encoding space, so this reads a 33-bit signed LEB128 and only afterward
/// sorts out which case it was.
fn read_block_type(body: &[u8], pos: &mut usize) -> (res: Result<BlockType, DecodeError>)
    ensures
        match block_type_at(body@, *old(pos) as int) {
            Ok((value, next)) => res == Ok::<BlockType, DecodeError>(value) && *final(pos)
                == next,
            Err(fault) => res matches Err(e) && e@ == fault,
        },
{
    let offset: usize = *pos;
    let value: i64 = match leb::read_signed(body, pos, 33) {
        Ok(value) => value,
        Err(e) => return Err(DecodeError { offset, kind: DecodeErrorKind::Leb(e) }),
    };
    match value {
        -64 => Ok(BlockType::Empty),
        -1 => Ok(BlockType::Value(ValType::I32)),
        -2 => Ok(BlockType::Value(ValType::I64)),
        -3 => Ok(BlockType::Value(ValType::F32)),
        -4 => Ok(BlockType::Value(ValType::F64)),
        _ => Err(DecodeError { offset, kind: DecodeErrorKind::UnsupportedBlockType }),
    }
}

/// Decodes the instruction at `*pos`, which lies within the body.
fn read_instr(body: &[u8], pos: &mut usize) -> (res: Result<Instr, DecodeError>)
    requires
        *old(pos) < body@.len(),
    ensures
        match instr_at(body@, *old(pos) as int) {
            Ok((instr, next)) => res == Ok::<Instr, DecodeError>(instr) && *final(pos) == next,
            Err(fault) => res matches Err(e) && e@ == fault,
        },
{
    let opcode_offset: usize = *pos;
    let opcode: u8 = body[*pos];
    *pos = *pos + 1;
    let instr: Instr = match opcode {
        0x02 => Instr::Block(read_block_type(body, pos)?),
        0x03 => Instr::Loop(read_block_type(body, pos)?),
        0x04 => Instr::If(read_block_type(body, pos)?),
        0x0C => Instr::Br(read_u32(body, pos)?),
        0x0D => Instr::BrIf(read_u32(body, pos)?),
        0x10 => Instr::Call(read_u32(body, pos)?),
        0x20 => Instr::LocalGet(read_u32(body, pos)?),
        0x21 => Instr::LocalSet(read_u32(body, pos)?),
        0x22 => Instr::LocalTee(read_u32(body, pos)?),
        0x41 => Instr::I32Const(read_i32(body, pos)?),
        0x42 => Instr::I64Const(read_i64(body, pos)?),
        0x00 => Instr::Unreachable,
        0x01 => Instr::Nop,
        0x05 => Instr::Else,
        0x0B => Instr::End,
        0x0F => Instr::Return,
        0x1A => Instr::Drop,
        0x1B => Instr::Select,
        0x45 => Instr::I32Eqz,
        0x46 => Instr::I32Eq,
        0x47 => Instr::I32Ne,
        0x48 => Instr::I32LtS,
        0x49 => Instr::I32LtU,
        0x4A => Instr::I32GtS,
        0x4B => Instr::I32GtU,
        0x4C => Instr::I32LeS,
        0x4D => Instr::I32LeU,
        0x4E => Instr::I32GeS,
        0x4F => Instr::I32GeU,
        0x50 => Instr::I64Eqz,
        0x51 => Instr::I64Eq,
        0x52 => Instr::I64Ne,
        0x53 => Instr::I64LtS,
        0x54 => Instr::I64LtU,
        0x55 => Instr::I64GtS,
        0x56 => Instr::I64GtU,
        0x57 => Instr::I64LeS,
        0x58 => Instr::I64LeU,
        0x59 => Instr::I64GeS,
        0x5A => Instr::I64GeU,
        0x67 => Instr::I32Clz,
        0x68 => Instr::I32Ctz,
        0x69 => Instr::I32Popcnt,
        0x6A => Instr::I32Add,
        0x6B => Instr::I32Sub,
        0x6C => Instr::I32Mul,
        0x6D => Instr::I32DivS,
        0x6E => Instr::I32DivU,
        0x6F => Instr::I32RemS,
        0x70 => Instr::I32RemU,
        0x71 => Instr::I32And,
        0x72 => Instr::I32Or,
        0x73 => Instr::I32Xor,
        0x74 => Instr::I32Shl,
        0x75 => Instr::I32ShrS,
        0x76 => Instr::I32ShrU,
        0x77 => Instr::I32Rotl,
        0x78 => Instr::I32Rotr,
        0x79 => Instr::I64Clz,
        0x7A => Instr::I64Ctz,
        0x7B => Instr::I64Popcnt,
        0x7C => Instr::I64Add,
        0x7D => Instr::I64Sub,
        0x7E => Instr::I64Mul,
        0x7F => Instr::I64DivS,
        0x80 => Instr::I64DivU,
        0x81 => Instr::I64RemS,
        0x82 => Instr::I64RemU,
        0x83 => Instr::I64And,
        0x84 => Instr::I64Or,
        0x85 => Instr::I64Xor,
        0x86 => Instr::I64Shl,
        0x87 => Instr::I64ShrS,
        0x88 => Instr::I64ShrU,
        0x89 => Instr::I64Rotl,
        0x8A => Instr::I64Rotr,
        0xA7 => Instr::I32WrapI64,
        0xAC => Instr::I64ExtendI32S,
        0xAD => Instr::I64ExtendI32U,
        other => {
            return Err(
                DecodeError {
                    offset: opcode_offset,
                    kind: DecodeErrorKind::UnsupportedOpcode(other),
                },
            );
        },
    };
    Ok(instr)
}

/// Decodes every instruction in `body` (the expression of a function,
/// including its trailing `end`) into a flat sequence.
pub fn decode(body: &[u8]) -> (res: Result<Vec<Instr>, DecodeError>)
    ensures
        match instrs_from(body@, 0) {
            Ok(instrs) => res matches Ok(v) && v@ == instrs,
            Err(fault) => res matches Err(e) && e@ == fault,
        },
{
    let mut pos: usize = 0;
    let mut instrs: Vec<Instr> = Vec::new();
    while pos < body.len()
        invariant
            pos <= body@.len(),
            match instrs_from(body@, pos as int) {
                Ok(rest) => instrs_from(body@, 0) == Ok::<Seq<Instr>, Fault<DecodeErrorKind>>(
                    instrs@ + rest,
                ),
                Err(fault) => instrs_from(body@, 0) == Err::<
                    Seq<Instr>,
                    Fault<DecodeErrorKind>,
                >(fault),
            },
        decreases body@.len() - pos,
    {
        let ghost start = pos as int;
        let ghost before = instrs@;
        proof {
            lemma_instr_bounds(body@, start);
        }
        let instr: Instr = read_instr(body, &mut pos)?;
        instrs.push(instr);
        proof {
            if let Ok(rest) = instrs_from(body@, pos as int) {
                assert(before + (seq![instr] + rest) =~= instrs@ + rest);
            }
        }
    }
    assert(instrs@ + Seq::<Instr>::empty() =~= instrs@);
    Ok(instrs)
}

} // verus!

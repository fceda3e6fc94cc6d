//! What holds of decoding instructions as a whole.

use crate::fault::Fault;
use crate::instr;
use crate::instr::{BlockType, DecodeErrorKind, Instr};
use crate::leb;
use crate::types::ValType;
use vstd::arithmetic::power2::*;
use vstd::prelude::*;

verus! {

/// The byte that opens an instruction.
pub open spec fn opcode(instr: Instr) -> u8 {
    match instr {
        Instr::Unreachable => 0x00,
        Instr::Nop => 0x01,
        Instr::Block(_) => 0x02,
        Instr::Loop(_) => 0x03,
        Instr::If(_) => 0x04,
        Instr::Else => 0x05,
        Instr::End => 0x0B,
        Instr::Br(_) => 0x0C,
        Instr::BrIf(_) => 0x0D,
        Instr::Return => 0x0F,
        Instr::Call(_) => 0x10,
        Instr::Drop => 0x1A,
        Instr::Select => 0x1B,
        Instr::LocalGet(_) => 0x20,
        Instr::LocalSet(_) => 0x21,
        Instr::LocalTee(_) => 0x22,
        Instr::I32Const(_) => 0x41,
        Instr::I64Const(_) => 0x42,
        Instr::I32Eqz => 0x45,
        Instr::I32Eq => 0x46,
        Instr::I32Ne => 0x47,
        Instr::I32LtS => 0x48,
        Instr::I32LtU => 0x49,
        Instr::I32GtS => 0x4A,
        Instr::I32GtU => 0x4B,
        Instr::I32LeS => 0x4C,
        Instr::I32LeU => 0x4D,
        Instr::I32GeS => 0x4E,
        Instr::I32GeU => 0x4F,
        Instr::I64Eqz => 0x50,
        Instr::I64Eq => 0x51,
        Instr::I64Ne => 0x52,
        Instr::I64LtS => 0x53,
        Instr::I64LtU => 0x54,
        Instr::I64GtS => 0x55,
        Instr::I64GtU => 0x56,
        Instr::I64LeS => 0x57,
        Instr::I64LeU => 0x58,
        Instr::I64GeS => 0x59,
        Instr::I64GeU => 0x5A,
        Instr::I32Clz => 0x67,
        Instr::I32Ctz => 0x68,
        Instr::I32Popcnt => 0x69,
        Instr::I32Add => 0x6A,
        Instr::I32Sub => 0x6B,
        Instr::I32Mul => 0x6C,
        Instr::I32DivS => 0x6D,
        Instr::I32DivU => 0x6E,
        Instr::I32RemS => 0x6F,
        Instr::I32RemU => 0x70,
        Instr::I32And => 0x71,
        Instr::I32Or => 0x72,
        Instr::I32Xor => 0x73,
        Instr::I32Shl => 0x74,
        Instr::I32ShrS => 0x75,
        Instr::I32ShrU => 0x76,
        Instr::I32Rotl => 0x77,
        Instr::I32Rotr => 0x78,
        Instr::I64Clz => 0x79,
        Instr::I64Ctz => 0x7A,
        Instr::I64Popcnt => 0x7B,
        Instr::I64Add => 0x7C,
        Instr::I64Sub => 0x7D,
        Instr::I64Mul => 0x7E,
        Instr::I64DivS => 0x7F,
        Instr::I64DivU => 0x80,
        Instr::I64RemS => 0x81,
        Instr::I64RemU => 0x82,
        Instr::I64And => 0x83,
        Instr::I64Or => 0x84,
        Instr::I64Xor => 0x85,
        Instr::I64Shl => 0x86,
        Instr::I64ShrS => 0x87,
        Instr::I64ShrU => 0x88,
        Instr::I64Rotl => 0x89,
        Instr::I64Rotr => 0x8A,
        Instr::I32WrapI64 => 0xA7,
        Instr::I64ExtendI32S => 0xAC,
        Instr::I64ExtendI32U => 0xAD,
    }
}

/// The integer that stands for a block type.
pub open spec fn block_type_code(b: BlockType) -> int {
    match b {
        BlockType::Empty => -64,
        BlockType::Value(ValType::I32) => -1,
        BlockType::Value(ValType::I64) => -2,
        BlockType::Value(ValType::F32) => -3,
        BlockType::Value(ValType::F64) => -4,
    }
}

/// The shortest encoding of what follows an instruction's opcode.
pub open spec fn encode_immediate(instr: Instr) -> Seq<u8> {
    match instr {
        Instr::Block(b) => leb::encode_signed(block_type_code(b)),
        Instr::Loop(b) => leb::encode_signed(block_type_code(b)),
        Instr::If(b) => leb::encode_signed(block_type_code(b)),
        Instr::Br(index) => leb::encode_unsigned(index as int),
        Instr::BrIf(index) => leb::encode_unsigned(index as int),
        Instr::Call(index) => leb::encode_unsigned(index as int),
        Instr::LocalGet(index) => leb::encode_unsigned(index as int),
        Instr::LocalSet(index) => leb::encode_unsigned(index as int),
        Instr::LocalTee(index) => leb::encode_unsigned(index as int),
        Instr::I32Const(value) => leb::encode_signed(value as int),
        Instr::I64Const(value) => leb::encode_signed(value as int),
        _ => Seq::empty(),
    }
}

/// The shortest encoding of an instruction.
pub open spec fn encode_instr(instr: Instr) -> Seq<u8> {
    seq![opcode(instr)] + encode_immediate(instr)
}

/// The shortest encoding of a sequence of instructions.
pub open spec fn encode_instrs(instrs: Seq<Instr>) -> Seq<u8>
    decreases instrs.len(),
{
    if instrs.len() == 0 {
        Seq::empty()
    } else {
        encode_instr(instrs[0]) + encode_instrs(instrs.drop_first())
    }
}

/// The opcode of whatever is decoded is the byte it was decoded from. With
/// `law_every_instruction_decodes`, opcodes and variants correspond one to
/// one.
pub proof fn law_opcode_of_decoded(body: Seq<u8>, pos: int)
    requires
        0 <= pos < body.len(),
    ensures
        instr::instr_at(body, pos) matches Ok((i, _)) ==> opcode(i) == body[pos],
{
}

/// An instruction's encoding decodes to that instruction, wherever it stands
/// and whatever follows it.
pub proof fn law_every_instruction_decodes(body: Seq<u8>, pos: int, i: Instr)
    requires
        leb::stands_at(encode_instr(i), body, pos),
    ensures
        instr::instr_at(body, pos) == Ok::<(Instr, int), Fault<DecodeErrorKind>>(
            (i, pos + encode_instr(i).len()),
        ),
{
    let at = pos + 1;
    lemma2_to64();
    lemma2_to64_rest();
    leb::lemma_stands_after(opcode(i), encode_immediate(i), body, pos);
    match i {
        Instr::Block(b) => leb::law_signed_round_trip(body, at, block_type_code(b), 33),
        Instr::Loop(b) => leb::law_signed_round_trip(body, at, block_type_code(b), 33),
        Instr::If(b) => leb::law_signed_round_trip(body, at, block_type_code(b), 33),
        Instr::Br(v) => leb::law_unsigned_round_trip(body, at, v as int, 32),
        Instr::BrIf(v) => leb::law_unsigned_round_trip(body, at, v as int, 32),
        Instr::Call(v) => leb::law_unsigned_round_trip(body, at, v as int, 32),
        Instr::LocalGet(v) => leb::law_unsigned_round_trip(body, at, v as int, 32),
        Instr::LocalSet(v) => leb::law_unsigned_round_trip(body, at, v as int, 32),
        Instr::LocalTee(v) => leb::law_unsigned_round_trip(body, at, v as int, 32),
        Instr::I32Const(v) => leb::law_signed_round_trip(body, at, v as int, 32),
        Instr::I64Const(v) => leb::law_signed_round_trip(body, at, v as int, 64),
        _ => {},
    }
}

/// A body that encodes a sequence of instructions decodes to that sequence.
pub proof fn law_decode_round_trip(instrs: Seq<Instr>)
    ensures
        instr::instrs_from(encode_instrs(instrs), 0) == Ok::<Seq<Instr>, Fault<DecodeErrorKind>>(
            instrs,
        ),
    decreases instrs.len(),
{
    let body = encode_instrs(instrs);
    if instrs.len() > 0 {
        let first = encode_instr(instrs[0]);
        let rest = encode_instrs(instrs.drop_first());
        assert(body.subrange(0, first.len() as int) =~= first);
        law_every_instruction_decodes(body, 0, instrs[0]);
        law_decode_round_trip(instrs.drop_first());
        assert(body.skip(first.len() as int) =~= rest.skip(0));
        lemma_instrs_local(rest, 0, body, first.len() as int);
        assert(seq![instrs[0]] + instrs.drop_first() =~= instrs);
    } else {
        assert(instrs =~= Seq::empty());
    }
}

/// Moves the positions of a decoding.
pub open spec fn moved<T>(decoded: instr::Decoded<T>, by: int) -> instr::Decoded<T> {
    match decoded {
        Ok((value, next)) => Ok((value, next + by)),
        Err(fault) => Err(fault.shifted(by)),
    }
}

/// The instruction at a position depends on the bytes from there on alone.
proof fn lemma_instr_local(a: Seq<u8>, i: int, b: Seq<u8>, j: int)
    requires
        0 <= i < a.len(),
        0 <= j < b.len(),
        a.skip(i) == b.skip(j),
    ensures
        instr::instr_at(b, j) == moved(instr::instr_at(a, i), j - i),
{
    assert(a.skip(i)[0] == a[i] && b.skip(j)[0] == b[j]);
    assert(a.skip(i).skip(1) =~= a.skip(i + 1));
    assert(b.skip(j).skip(1) =~= b.skip(j + 1));
    leb::law_signed_is_local(a, i + 1, b, j + 1, 33);
    leb::law_unsigned_is_local(a, i + 1, b, j + 1, 32);
    leb::law_signed_is_local(a, i + 1, b, j + 1, 32);
    leb::law_signed_is_local(a, i + 1, b, j + 1, 64);
}

/// The instructions from a position on depend on the bytes from there on
/// alone.
proof fn lemma_instrs_local(a: Seq<u8>, i: int, b: Seq<u8>, j: int)
    requires
        0 <= i <= a.len(),
        0 <= j <= b.len(),
        a.skip(i) == b.skip(j),
    ensures
        instr::instrs_from(b, j) == match instr::instrs_from(a, i) {
            Ok(instrs) => Ok::<Seq<Instr>, Fault<DecodeErrorKind>>(instrs),
            Err(fault) => Err(fault.shifted(j - i)),
        },
    decreases a.len() - i,
{
    assert(a.skip(i).len() == a.len() - i && b.skip(j).len() == b.len() - j);
    if i < a.len() {
        lemma_instr_local(a, i, b, j);
        instr::lemma_instr_bounds(a, i);
        if let Ok((_, next)) = instr::instr_at(a, i) {
            let used = next - i;
            assert(a.skip(i).skip(used) =~= a.skip(next));
            assert(b.skip(j).skip(used) =~= b.skip(j + used));
            lemma_instrs_local(a, next, b, j + used);
        }
    }
}

/// An instruction that decoded never depended on what follows it.
proof fn lemma_instr_looks_no_further(a: Seq<u8>, b: Seq<u8>, pos: int)
    requires
        0 <= pos < a.len(),
        instr::instr_at(a, pos) matches Ok((_, next)) && next <= b.len() && a.take(next)
            == b.take(next),
    ensures
        instr::instr_at(b, pos) == instr::instr_at(a, pos),
{
    instr::lemma_instr_bounds(a, pos);
    let next = instr::instr_at(a, pos)->Ok_0.1;
    assert(a.take(next)[pos] == b.take(next)[pos]);
    let op = a[pos];
    let at = pos + 1;
    if op == 0x02 || op == 0x03 || op == 0x04 {
        leb::law_signed_looks_no_further(a, b, at, 33);
    } else if op == 0x0C || op == 0x0D || op == 0x10 || op == 0x20 || op == 0x21 || op == 0x22 {
        leb::law_unsigned_looks_no_further(a, b, at, 32);
    } else if op == 0x41 {
        leb::law_signed_looks_no_further(a, b, at, 32);
    } else if op == 0x42 {
        leb::law_signed_looks_no_further(a, b, at, 64);
    }
}

/// What follows a body that decodes is decoded on its own: the instructions
/// of both come one after the other, and a fault in the second part is placed
/// where that part stands.
pub proof fn law_decode_of_concatenation(first: Seq<u8>, second: Seq<u8>)
    requires
        instr::instrs_from(first, 0) is Ok,
    ensures
        instr::instrs_from(first + second, 0) == match instr::instrs_from(second, 0) {
            Ok(instrs) => Ok::<Seq<Instr>, Fault<DecodeErrorKind>>(
                instr::instrs_from(first, 0)->Ok_0 + instrs,
            ),
            Err(fault) => Err(fault.shifted(first.len() as int)),
        },
{
    lemma_decode_of_concatenation(first, second, 0);
}

proof fn lemma_decode_of_concatenation(first: Seq<u8>, second: Seq<u8>, pos: int)
    requires
        0 <= pos <= first.len(),
        instr::instrs_from(first, pos) is Ok,
    ensures
        instr::instrs_from(first + second, pos) == match instr::instrs_from(second, 0) {
            Ok(instrs) => Ok::<Seq<Instr>, Fault<DecodeErrorKind>>(
                instr::instrs_from(first, pos)->Ok_0 + instrs,
            ),
            Err(fault) => Err(fault.shifted(first.len() as int)),
        },
    decreases first.len() - pos,
{
    let whole = first + second;
    if pos < first.len() {
        instr::lemma_instr_bounds(first, pos);
        let (i, next) = instr::instr_at(first, pos)->Ok_0;
        assert(first.take(next) =~= whole.take(next));
        lemma_instr_looks_no_further(first, whole, pos);
        lemma_decode_of_concatenation(first, second, next);
        if let Ok(instrs) = instr::instrs_from(second, 0) {
            let rest = instr::instrs_from(first, next)->Ok_0;
            assert(seq![i] + (rest + instrs) =~= (seq![i] + rest) + instrs);
        }
    } else {
        assert(whole.skip(pos) =~= second.skip(0));
        lemma_instrs_local(second, 0, whole, pos);
        if let Ok(instrs) = instr::instrs_from(second, 0) {
            assert(Seq::<Instr>::empty() + instrs =~= instrs);
        }
    }
}

/// A fault lies within the body or at its end, and no body decodes to more
/// instructions than it has bytes.
pub proof fn law_decode_bounds(body: Seq<u8>)
    ensures
        match instr::instrs_from(body, 0) {
            Ok(instrs) => instrs.len() <= body.len(),
            Err(fault) => 0 <= fault.offset <= body.len(),
        },
{
    lemma_decode_bounds(body, 0);
}

proof fn lemma_decode_bounds(body: Seq<u8>, pos: int)
    requires
        0 <= pos <= body.len(),
    ensures
        match instr::instrs_from(body, pos) {
            Ok(instrs) => instrs.len() <= body.len() - pos,
            Err(fault) => pos <= fault.offset <= body.len(),
        },
    decreases body.len() - pos,
{
    if pos < body.len() {
        instr::lemma_instr_bounds(body, pos);
        if let Ok((_, next)) = instr::instr_at(body, pos) {
            lemma_decode_bounds(body, next);
        }
    }
}

/// Where decoding a body broke: a fault comes from one instruction, and
/// everything before that instruction decodes.
///
/// An unsupported opcode is reported where it stands, and it opens no
/// instruction. Every other fault is reported at the first byte of an
/// immediate, right after its opcode.
pub proof fn law_decode_faults(body: Seq<u8>)
    ensures
        instr::instrs_from(body, 0) matches Err(fault) ==> {
            let at = match fault.kind {
                DecodeErrorKind::UnsupportedOpcode(_) => fault.offset,
                _ => fault.offset - 1,
            };
            &&& 0 <= at < body.len()
            &&& instr::instr_at(body, at) == Err::<(Instr, int), Fault<DecodeErrorKind>>(fault)
            &&& instr::instrs_from(body.take(at), 0) is Ok
            &&& match fault.kind {
                DecodeErrorKind::UnsupportedOpcode(byte) => byte == body[at] && forall|i: Instr|
                    #[trigger] opcode(i) != byte,
                DecodeErrorKind::UnsupportedBlockType => body[at] == 0x02 || body[at] == 0x03
                    || body[at] == 0x04,
                DecodeErrorKind::Leb(_) => exists|i: Instr|
                    #[trigger] opcode(i) == body[at] && encode_immediate(i).len() > 0,
            }
        },
{
    if let Err(fault) = instr::instrs_from(body, 0) {
        let at = lemma_fault_place(body, 0);
        let byte = body[at];
        if fault.kind is UnsupportedOpcode {
            assert forall|i: Instr| #[trigger] opcode(i) != byte by {
                lemma_opcode_is_supported(i);
            }
        } else if fault.kind is Leb {
            let i = lemma_opcode_with_immediate(byte);
            assert(opcode(i) == byte && encode_immediate(i).len() > 0);
        }
    }
}

/// The position of the instruction that decoding from `pos` on breaks at.
proof fn lemma_fault_place(body: Seq<u8>, pos: int) -> (at: int)
    requires
        0 <= pos <= body.len(),
        instr::instrs_from(body, pos) is Err,
    ensures
        pos <= at < body.len(),
        instr::instr_at(body, at) == Err::<(Instr, int), Fault<DecodeErrorKind>>(
            instr::instrs_from(body, pos)->Err_0,
        ),
        instr::instrs_from(body.take(at), pos) is Ok,
    decreases body.len() - pos,
{
    instr::lemma_instr_bounds(body, pos);
    if let Ok((_, next)) = instr::instr_at(body, pos) {
        let at = lemma_fault_place(body, next);
        let before = body.take(at);
        assert(body.take(next) =~= before.take(next));
        lemma_instr_looks_no_further(body, before, pos);
        at
    } else {
        pos
    }
}

/// Whether a byte opens an instruction that takes an immediate.
spec fn takes_immediate(byte: u8) -> bool {
    ||| byte == 0x02 || byte == 0x03 || byte == 0x04
    ||| byte == 0x0C || byte == 0x0D || byte == 0x10
    ||| byte == 0x20 || byte == 0x21 || byte == 0x22
    ||| byte == 0x41 || byte == 0x42
}

proof fn lemma_opcode_is_supported(i: Instr)
    ensures
        takes_immediate(opcode(i)) || instr::plain_instr(opcode(i)) is Some,
{
}

proof fn lemma_opcode_with_immediate(byte: u8) -> (i: Instr)
    requires
        takes_immediate(byte),
    ensures
        opcode(i) == byte,
        encode_immediate(i).len() > 0,
{
    match byte {
        0x02 => Instr::Block(BlockType::Empty),
        0x03 => Instr::Loop(BlockType::Empty),
        0x04 => Instr::If(BlockType::Empty),
        0x0C => Instr::Br(0),
        0x0D => Instr::BrIf(0),
        0x10 => Instr::Call(0),
        0x20 => Instr::LocalGet(0),
        0x21 => Instr::LocalSet(0),
        0x22 => Instr::LocalTee(0),
        0x41 => Instr::I32Const(0),
        _ => Instr::I64Const(0),
    }
}

/// Whether a body is exactly these instructions, one after the other, each
/// starting at its position; the last position is the end of the body.
pub open spec fn reads_through(
    body: Seq<u8>,
    start: int,
    instrs: Seq<Instr>,
    positions: Seq<int>,
) -> bool {
    &&& positions.len() == instrs.len() + 1
    &&& positions[0] == start
    &&& positions.last() == body.len()
    &&& forall|i: int|
        0 <= i < instrs.len() ==> 0 <= #[trigger] positions[i] < body.len() && instr::instr_at(
            body,
            positions[i],
        ) == Ok::<(Instr, int), Fault<DecodeErrorKind>>((instrs[i], positions[i + 1]))
}

/// Nothing of a body is left unread: it decodes to a sequence of instructions
/// exactly if they take it up from its first byte to its last.
pub proof fn law_decode_reads_everything(body: Seq<u8>, instrs: Seq<Instr>)
    ensures
        instr::instrs_from(body, 0) == Ok::<Seq<Instr>, Fault<DecodeErrorKind>>(instrs) <==> exists|
            positions: Seq<int>,
        | #[trigger]
            reads_through(body, 0, instrs, positions),
{
    if instr::instrs_from(body, 0) == Ok::<Seq<Instr>, Fault<DecodeErrorKind>>(instrs) {
        let positions = lemma_positions(body, 0);
        assert(reads_through(body, 0, instrs, positions));
    }
    if exists|positions: Seq<int>| #[trigger] reads_through(body, 0, instrs, positions) {
        let positions = choose|positions: Seq<int>| #[trigger]
            reads_through(body, 0, instrs, positions);
        lemma_reads_through_decodes(body, 0, instrs, positions);
    }
}

proof fn lemma_positions(body: Seq<u8>, pos: int) -> (positions: Seq<int>)
    requires
        0 <= pos <= body.len(),
        instr::instrs_from(body, pos) is Ok,
    ensures
        reads_through(body, pos, instr::instrs_from(body, pos)->Ok_0, positions),
    decreases body.len() - pos,
{
    if pos < body.len() {
        instr::lemma_instr_bounds(body, pos);
        let (first, next) = instr::instr_at(body, pos)->Ok_0;
        let rest = lemma_positions(body, next);
        let positions = seq![pos] + rest;
        let later = instr::instrs_from(body, next)->Ok_0;
        let instrs = seq![first] + later;
        assert forall|i: int| 0 <= i < instrs.len() implies 0 <= #[trigger] positions[i]
            < body.len() && instr::instr_at(body, positions[i]) == Ok::<
            (Instr, int),
            Fault<DecodeErrorKind>,
        >((instrs[i], positions[i + 1])) by {
            if i == 0 {
                assert(positions[1] == rest[0]);
            } else {
                assert(positions[i] == rest[i - 1] && positions[i + 1] == rest[i]);
                assert(instrs[i] == later[i - 1]);
            }
        }
        positions
    } else {
        seq![pos]
    }
}

proof fn lemma_reads_through_decodes(
    body: Seq<u8>,
    pos: int,
    instrs: Seq<Instr>,
    positions: Seq<int>,
)
    requires
        reads_through(body, pos, instrs, positions),
    ensures
        instr::instrs_from(body, pos) == Ok::<Seq<Instr>, Fault<DecodeErrorKind>>(instrs),
    decreases instrs.len(),
{
    if instrs.len() > 0 {
        let next = positions[1];
        let later = instrs.drop_first();
        let rest = positions.drop_first();
        assert(0 <= positions[0] < body.len());
        assert forall|i: int| 0 <= i < later.len() implies 0 <= #[trigger] rest[i] < body.len()
            && instr::instr_at(body, rest[i]) == Ok::<(Instr, int), Fault<DecodeErrorKind>>(
            (later[i], rest[i + 1]),
        ) by {
            assert(rest[i] == positions[i + 1] && rest[i + 1] == positions[i + 2]);
        }
        lemma_reads_through_decodes(body, next, later, rest);
        assert(seq![instrs[0]] + later =~= instrs);
    } else {
        assert(instrs =~= Seq::empty());
    }
}

/// Block types share one encoding space with value types: the byte of a value
/// type, read as a block type, is the block that leaves that value, and
/// `0x40` is the block that leaves nothing. Any other single byte is no block
/// type, and is reported where it stands.
pub proof fn law_block_types_share_value_type_bytes(body: Seq<u8>, pos: int)
    requires
        0 <= pos < body.len(),
        body[pos] < 0x80,
    ensures
        instr::block_type_at(body, pos) == if body[pos] == 0x40 {
            Ok::<(BlockType, int), Fault<DecodeErrorKind>>((BlockType::Empty, pos + 1))
        } else {
            match ValType::encoded_by(body[pos]) {
                Some(t) => Ok((BlockType::Value(t), pos + 1)),
                None => Err(Fault { offset: pos, kind: DecodeErrorKind::UnsupportedBlockType }),
            }
        },
{
    lemma2_to64();
    leb::law_signed_fits(body, pos, 33);
}

/// Whether the bytes from `from` to `to` spell what follows an instruction's
/// opcode.
pub open spec fn immediate_spelled(body: Seq<u8>, from: int, to: int, i: Instr) -> bool {
    match i {
        Instr::Block(b) => leb::signed_spelled(body, from, to, 33, block_type_code(b)),
        Instr::Loop(b) => leb::signed_spelled(body, from, to, 33, block_type_code(b)),
        Instr::If(b) => leb::signed_spelled(body, from, to, 33, block_type_code(b)),
        Instr::Br(index) => leb::unsigned_spelled(body, from, to, 32, index as int),
        Instr::BrIf(index) => leb::unsigned_spelled(body, from, to, 32, index as int),
        Instr::Call(index) => leb::unsigned_spelled(body, from, to, 32, index as int),
        Instr::LocalGet(index) => leb::unsigned_spelled(body, from, to, 32, index as int),
        Instr::LocalSet(index) => leb::unsigned_spelled(body, from, to, 32, index as int),
        Instr::LocalTee(index) => leb::unsigned_spelled(body, from, to, 32, index as int),
        Instr::I32Const(value) => leb::signed_spelled(body, from, to, 32, value as int),
        Instr::I64Const(value) => leb::signed_spelled(body, from, to, 64, value as int),
        _ => to == from,
    }
}

/// An instruction is decoded exactly where its opcode stands, followed by
/// bytes that spell its immediate, in the shortest way or with padding; it
/// ends with them.
pub proof fn law_instr_exactly(body: Seq<u8>, pos: int, next: int, i: Instr)
    requires
        0 <= pos < body.len(),
    ensures
        instr::instr_at(body, pos) == Ok::<(Instr, int), Fault<DecodeErrorKind>>((i, next))
            <==> body[pos] == opcode(i) && immediate_spelled(body, pos + 1, next, i),
{
    let at = pos + 1;
    lemma2_to64();
    lemma2_to64_rest();
    leb::law_signed_fits(body, at, 33);
    leb::law_unsigned_fits(body, at, 32);
    leb::law_signed_fits(body, at, 32);
    leb::law_signed_fits(body, at, 64);
    match i {
        Instr::Block(b) => leb::law_signed_exactly(body, at, next, 33, block_type_code(b)),
        Instr::Loop(b) => leb::law_signed_exactly(body, at, next, 33, block_type_code(b)),
        Instr::If(b) => leb::law_signed_exactly(body, at, next, 33, block_type_code(b)),
        Instr::I32Const(v) => leb::law_signed_exactly(body, at, next, 32, v as int),
        Instr::I64Const(v) => leb::law_signed_exactly(body, at, next, 64, v as int),
        Instr::Br(v) => leb::law_unsigned_exactly(body, at, next, 32, v as int),
        Instr::BrIf(v) => leb::law_unsigned_exactly(body, at, next, 32, v as int),
        Instr::Call(v) => leb::law_unsigned_exactly(body, at, next, 32, v as int),
        Instr::LocalGet(v) => leb::law_unsigned_exactly(body, at, next, 32, v as int),
        Instr::LocalSet(v) => leb::law_unsigned_exactly(body, at, next, 32, v as int),
        Instr::LocalTee(v) => leb::law_unsigned_exactly(body, at, next, 32, v as int),
        _ => {},
    }
}

/// Why an instruction does not decode. No instruction has the opcode; or the
/// opcode opens a block, and the integer after it stands for no block type; or
/// the integer after it breaks, at whichever byte.
pub proof fn law_instr_faults(body: Seq<u8>, pos: int)
    requires
        0 <= pos < body.len(),
    ensures
        instr::instr_at(body, pos) matches Err(fault) ==> match fault.kind {
            DecodeErrorKind::UnsupportedOpcode(byte) => {
                &&& fault.offset == pos
                &&& byte == body[pos]
                &&& forall|i: Instr| #[trigger] opcode(i) != byte
            },
            DecodeErrorKind::UnsupportedBlockType => {
                &&& fault.offset == pos + 1
                &&& 0x02 <= body[pos] <= 0x04
                &&& exists|value: int, next: int| #[trigger]
                    leb::signed_spelled(body, pos + 1, next, 33, value) && forall|b: BlockType|
                        #[trigger] block_type_code(b) != value
            },
            DecodeErrorKind::Leb(error) => {
                &&& fault.offset == pos + 1
                &&& exists|at: int| #[trigger] immediate_breaks(body, pos, error, at)
            },
        },
{
    let at = pos + 1;
    if let Err(fault) = instr::instr_at(body, pos) {
        let byte = body[pos];
        if fault.kind is UnsupportedOpcode {
            assert forall|i: Instr| #[trigger] opcode(i) != byte by {
                lemma_opcode_is_supported(i);
            }
        } else if fault.kind is UnsupportedBlockType {
            let (value, next) = leb::signed_at(body, at, 33)->Ok_0;
            leb::law_signed_exactly(body, at, next, 33, value);
            assert(leb::signed_spelled(body, at, next, 33, value));
        } else {
            let reading = if byte == 0x02 || byte == 0x03 || byte == 0x04 {
                leb::signed_at(body, at, 33)
            } else if byte == 0x41 {
                leb::signed_at(body, at, 32)
            } else if byte == 0x42 {
                leb::signed_at(body, at, 64)
            } else {
                leb::unsigned_at(body, at, 32)
            };
            let i = lemma_opcode_with_immediate(byte);
            assert(opcode(i) == body[pos]);
            assert(immediate_breaks(body, pos, reading->Err_0.0, reading->Err_0.1));
        }
    }
}

/// Whether the integer after the opcode at `pos` breaks at `at`: a 33-bit
/// signed one after an opcode that opens a block, a constant of its width, an
/// unsigned 32-bit index after any other opcode that takes an immediate.
pub open spec fn immediate_breaks(body: Seq<u8>, pos: int, error: leb::LebError, at: int) -> bool {
    let broken = Err::<(int, int), (leb::LebError, int)>((error, at));
    exists|i: Instr| #[trigger]
        opcode(i) == body[pos] && match i {
            Instr::Block(_) => leb::signed_at(body, pos + 1, 33) == broken,
            Instr::Loop(_) => leb::signed_at(body, pos + 1, 33) == broken,
            Instr::If(_) => leb::signed_at(body, pos + 1, 33) == broken,
            Instr::I32Const(_) => leb::signed_at(body, pos + 1, 32) == broken,
            Instr::I64Const(_) => leb::signed_at(body, pos + 1, 64) == broken,
            _ => encode_immediate(i).len() > 0 && leb::unsigned_at(body, pos + 1, 32) == broken,
        }
}

} // verus!

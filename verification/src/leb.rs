//! LEB128: the variable-length integers of the WebAssembly binary format.
//!
//! An integer is a run of bytes, each carrying seven bits, least significant
//! group first. The high bit of a byte says whether another byte follows. An
//! `N`-bit integer never takes more than `ceil(N / 7)` bytes, and the last
//! byte may not carry bits that `N` bits have no room for; leading zero groups
//! (or sign groups) within that length are allowed.

use vstd::arithmetic::power2::*;
use vstd::prelude::*;
use vstd::string::*;

verus! {

/// Why an integer failed to decode.
#[derive(Debug, Clone, Copy, PartialEq, Eq, Structural)]
pub enum LebError {
    /// The input ended before the last byte of the integer.
    UnexpectedEof,
    /// The encoding is longer, or its value larger, than the integer's width
    /// allows.
    Overflow,
}

impl LebError {
    /// The message for people.
    pub open spec fn text(self) -> Seq<char> {
        match self {
            LebError::UnexpectedEof => "unexpected end of LEB128 integer"@,
            LebError::Overflow => "LEB128 integer out of range"@,
        }
    }

    /// The message for people.
    pub fn to_string(&self) -> (res: String)
        ensures
            res@ == self.text(),
    {
        match self {
            LebError::UnexpectedEof => String::from_str("unexpected end of LEB128 integer"),
            LebError::Overflow => String::from_str("LEB128 integer out of range"),
        }
    }
}

/// What reading an integer comes to: its value and the position after its
/// last byte, or the error and the position of the byte that broke it.
pub type Reading = Result<(int, int), (LebError, int)>;

/// Whether `value` is an unsigned integer of `bits` bits.
pub open spec fn fits_unsigned(value: int, bits: int) -> bool {
    0 <= value < pow2(bits as nat)
}

/// Whether `value` is a two's complement integer of `bits` bits.
pub open spec fn fits_signed(value: int, bits: int) -> bool {
    -pow2((bits - 1) as nat) <= value < pow2((bits - 1) as nat)
}

/// The two's complement reading of a seven-bit group.
pub open spec fn sign_group(byte: u8) -> int {
    if byte < 0x40 {
        byte as int
    } else {
        byte - 0x80
    }
}

/// A reading with a lower group of seven bits put below it.
pub open spec fn below(low: int, rest: Reading) -> Reading {
    match rest {
        Ok((high, next)) => Ok((low + 128 * high, next)),
        Err(e) => Err(e),
    }
}

/// The unsigned integer of `bits` bits encoded at `pos`: a byte below `0x80`
/// is the value itself, any other byte holds the low seven bits of a value
/// whose remaining `bits - 7` bits follow.
pub open spec fn unsigned_at(bytes: Seq<u8>, pos: int, bits: int) -> Reading
    decreases bits,
{
    if !(0 <= pos < bytes.len()) {
        Err((LebError::UnexpectedEof, pos))
    } else if bytes[pos] < 0x80 {
        if fits_unsigned(bytes[pos] as int, bits) {
            Ok((bytes[pos] as int, pos + 1))
        } else {
            Err((LebError::Overflow, pos))
        }
    } else if bits <= 7 {
        Err((LebError::Overflow, pos))
    } else {
        below(bytes[pos] - 0x80, unsigned_at(bytes, pos + 1, bits - 7))
    }
}

/// The signed integer of `bits` bits encoded at `pos`: as `unsigned_at`, with
/// the last group read in two's complement.
pub open spec fn signed_at(bytes: Seq<u8>, pos: int, bits: int) -> Reading
    decreases bits,
{
    if !(0 <= pos < bytes.len()) {
        Err((LebError::UnexpectedEof, pos))
    } else if bytes[pos] < 0x80 {
        if fits_signed(sign_group(bytes[pos]), bits) {
            Ok((sign_group(bytes[pos]), pos + 1))
        } else {
            Err((LebError::Overflow, pos))
        }
    } else if bits <= 7 {
        Err((LebError::Overflow, pos))
    } else {
        below(bytes[pos] - 0x80, signed_at(bytes, pos + 1, bits - 7))
    }
}

/// A reading continued above `value`, the groups already read, which weigh
/// less than `weight` together.
spec fn above(value: int, weight: int, rest: Reading) -> Reading {
    match rest {
        Ok((high, next)) => Ok((value + weight * high, next)),
        Err(e) => Err(e),
    }
}

proof fn lemma_above_below(value: int, weight: int, low: int, rest: Reading)
    ensures
        above(value, weight, below(low, rest)) == above(
            value + weight * low,
            weight * 128,
            rest,
        ),
{
    if let Ok((high, next)) = rest {
        assert(value + weight * (low + 128 * high) == (value + weight * low) + (weight * 128)
            * high) by (nonlinear_arith);
    }
}

/// A group of `width` bits put on top of the `done` bits of `value` gives a
/// value of `done + width` bits.
proof fn lemma_group_on_top(value: int, group: int, done: nat, width: nat)
    requires
        0 <= value < pow2(done),
        0 <= group < pow2(width),
    ensures
        0 <= pow2(done) * group,
        value + pow2(done) * group < pow2(done + width),
{
    lemma_pow2_adds(done, width);
    let weight = pow2(done) as int;
    let room = pow2(width) as int;
    assert(0 <= weight * group && value + weight * group < weight * room) by (nonlinear_arith)
        requires
            0 <= value < weight,
            0 <= group < room,
    ;
}

/// The same with a last group in two's complement: the value it completes has
/// `done + width` bits and a sign of its own.
proof fn lemma_signed_group_on_top(value: int, group: int, done: nat, width: nat)
    requires
        0 <= value < pow2(done),
        1 <= width,
        fits_signed(group, width as int),
    ensures
        fits_signed(value + pow2(done) * group, (done + width) as int),
{
    lemma_pow2_adds(done, (width - 1) as nat);
    assert(done + (width - 1) as nat == (done + width - 1) as nat);
    let weight = pow2(done) as int;
    let room = pow2((width - 1) as nat) as int;
    assert(-(weight * room) <= value + weight * group < weight * room) by (nonlinear_arith)
        requires
            0 <= value < weight,
            -room <= group < room,
    ;
}

proof fn lemma_pow2_grows(a: nat, b: nat)
    requires
        a <= b,
    ensures
        pow2(a) <= pow2(b),
{
    if a < b {
        lemma_pow2_strictly_increases(a, b);
    }
}

/// Reads an unsigned integer of `bits` bits at `*pos` and moves `*pos` past
/// it, or to the byte that broke it.
fn read_unsigned(bytes: &[u8], pos: &mut usize, bits: u32) -> (res: Result<u64, LebError>)
    requires
        1 <= bits <= 64,
    ensures
        match unsigned_at(bytes@, *old(pos) as int, bits as int) {
            Ok((value, next)) => res matches Ok(v) && v == value && *final(pos) == next,
            Err((error, at)) => res == Err::<u64, LebError>(error) && *final(pos) == at,
        },
{
    let ghost start = *pos as int;
    let mut value: u64 = 0;
    let mut weight: u64 = 1;
    let mut rest: u32 = bits;
    proof {
        lemma2_to64();
    }
    loop
        invariant
            start == *old(pos),
            1 <= rest <= bits <= 64,
            weight == pow2((bits - rest) as nat),
            value < weight,
            unsigned_at(bytes@, start, bits as int) == above(
                value as int,
                weight as int,
                unsigned_at(bytes@, *pos as int, rest as int),
            ),
        decreases rest,
    {
        if *pos >= bytes.len() {
            return Err(LebError::UnexpectedEof);
        }
        let byte: u8 = bytes[*pos];
        let group: u64 = (byte % 128) as u64;
        proof {
            lemma2_to64();
            if rest < 7 {
                vstd::bits::lemma_u64_shl_is_mul(1, rest as u64);
            } else {
                lemma_pow2_grows(7, rest as nat);
            }
        }
        if rest < 7 && group >= (1u64 << rest) {
            return Err(LebError::Overflow);
        }
        if byte >= 128 && rest <= 7 {
            return Err(LebError::Overflow);
        }
        let ghost done = (bits - rest) as nat;
        let ghost width = if rest < 7 { rest as nat } else { 7 };
        proof {
            lemma_group_on_top(value as int, group as int, done, width);
            lemma_pow2_grows(done + width, 64);
            lemma_above_below(
                value as int,
                weight as int,
                group as int,
                unsigned_at(bytes@, *pos + 1, rest - 7),
            );
        }
        value = value + weight * group;
        *pos = *pos + 1;
        if byte < 128 {
            return Ok(value);
        }
        proof {
            lemma2_to64_rest();
            lemma_pow2_adds(done, 7);
            lemma_pow2_grows(done + 7, 63);
        }
        weight = weight * 128;
        rest = rest - 7;
    }
}

/// Reads a signed integer of `bits` bits at `*pos` and moves `*pos` past it,
/// or to the byte that broke it.
pub fn read_signed(bytes: &[u8], pos: &mut usize, bits: u32) -> (res: Result<i64, LebError>)
    requires
        1 <= bits <= 64,
    ensures
        match signed_at(bytes@, *old(pos) as int, bits as int) {
            Ok((value, next)) => res matches Ok(v) && v == value && *final(pos) == next,
            Err((error, at)) => res == Err::<i64, LebError>(error) && *final(pos) == at,
        },
{
    let ghost start = *pos as int;
    let mut value: i128 = 0;
    let mut weight: i128 = 1;
    let mut rest: u32 = bits;
    proof {
        lemma2_to64();
    }
    loop
        invariant
            start == *old(pos),
            1 <= rest <= bits <= 64,
            weight == pow2((bits - rest) as nat),
            0 <= value < weight,
            signed_at(bytes@, start, bits as int) == above(
                value as int,
                weight as int,
                signed_at(bytes@, *pos as int, rest as int),
            ),
        decreases rest,
    {
        if *pos >= bytes.len() {
            return Err(LebError::UnexpectedEof);
        }
        let byte: u8 = bytes[*pos];
        let ghost done = (bits - rest) as nat;
        proof {
            lemma2_to64();
            lemma2_to64_rest();
            lemma_pow2_grows(done, 63);
        }
        if byte < 128 {
            let group: i128 = if byte < 64 { byte as i128 } else { byte as i128 - 128 };
            proof {
                if rest < 7 {
                    vstd::bits::lemma_u64_shl_is_mul(1, (rest - 1) as u64);
                } else {
                    lemma_pow2_grows(6, (rest - 1) as nat);
                }
            }
            if rest < 7 {
                let limit: i128 = (1u64 << (rest - 1)) as i128;
                if group < -limit || group >= limit {
                    return Err(LebError::Overflow);
                }
            }
            proof {
                lemma_signed_group_on_top(value as int, group as int, done, rest as nat);
                lemma_pow2_grows((bits - 1) as nat, 63);
            }
            *pos = *pos + 1;
            return Ok((value + weight * group) as i64);
        }
        if rest <= 7 {
            return Err(LebError::Overflow);
        }
        let group: i128 = byte as i128 - 128;
        proof {
            lemma_group_on_top(value as int, group as int, done, 7);
            lemma_pow2_adds(done, 7);
            lemma_pow2_grows(done + 7, 63);
            lemma_above_below(
                value as int,
                weight as int,
                group as int,
                signed_at(bytes@, *pos + 1, rest - 7),
            );
        }
        value = value + weight * group;
        *pos = *pos + 1;
        weight = weight * 128;
        rest = rest - 7;
    }
}

/// Reads a `u32` at `*pos` and moves `*pos` past it, or to the byte that broke
/// it.
pub fn read_u32(bytes: &[u8], pos: &mut usize) -> (res: Result<u32, LebError>)
    ensures
        match unsigned_at(bytes@, *old(pos) as int, 32) {
            Ok((value, next)) => res matches Ok(v) && v == value && *final(pos) == next,
            Err((error, at)) => res == Err::<u32, LebError>(error) && *final(pos) == at,
        },
{
    proof {
        lemma2_to64();
        law_unsigned_fits(bytes@, *pos as int, 32);
    }
    let value: u64 = read_unsigned(bytes, pos, 32)?;
    Ok(value as u32)
}

/// Reads an `i32` at `*pos` and moves `*pos` past it, or to the byte that
/// broke it.
pub fn read_i32(bytes: &[u8], pos: &mut usize) -> (res: Result<i32, LebError>)
    ensures
        match signed_at(bytes@, *old(pos) as int, 32) {
            Ok((value, next)) => res matches Ok(v) && v == value && *final(pos) == next,
            Err((error, at)) => res == Err::<i32, LebError>(error) && *final(pos) == at,
        },
{
    proof {
        lemma2_to64();
        law_signed_fits(bytes@, *pos as int, 32);
    }
    let value: i64 = read_signed(bytes, pos, 32)?;
    Ok(value as i32)
}

/// Reads an `i64` at `*pos` and moves `*pos` past it, or to the byte that
/// broke it.
pub fn read_i64(bytes: &[u8], pos: &mut usize) -> (res: Result<i64, LebError>)
    ensures
        match signed_at(bytes@, *old(pos) as int, 64) {
            Ok((value, next)) => res matches Ok(v) && v == value && *final(pos) == next,
            Err((error, at)) => res == Err::<i64, LebError>(error) && *final(pos) == at,
        },
{
    read_signed(bytes, pos, 64)
}

/// What is read as an unsigned integer of some width is one of that width, and
/// it takes at least one byte and no byte past the end of the input.
pub proof fn law_unsigned_fits(bytes: Seq<u8>, pos: int, bits: int)
    requires
        0 <= pos,
        1 <= bits,
    ensures
        unsigned_at(bytes, pos, bits) matches Ok((value, next)) ==> fits_unsigned(value, bits)
            && pos < next <= bytes.len() && 7 * (next - pos) <= bits + 6,
        unsigned_at(bytes, pos, bits) matches Err((error, at)) ==> pos <= at && (at
            <= bytes.len() || at == pos) && (error is UnexpectedEof <==> at >= bytes.len()),
    decreases bits,
{
    if 0 <= pos < bytes.len() && bytes[pos] >= 0x80 && bits > 7 {
        law_unsigned_fits(bytes, pos + 1, bits - 7);
        lemma2_to64();
        lemma_pow2_adds(7, (bits - 7) as nat);
    }
}

/// What is read as a signed integer of some width is one of that width, and it
/// takes at least one byte and no byte past the end of the input.
pub proof fn law_signed_fits(bytes: Seq<u8>, pos: int, bits: int)
    requires
        0 <= pos,
        1 <= bits,
    ensures
        signed_at(bytes, pos, bits) matches Ok((value, next)) ==> fits_signed(value, bits) && pos
            < next <= bytes.len() && 7 * (next - pos) <= bits + 6,
        signed_at(bytes, pos, bits) matches Err((error, at)) ==> pos <= at && (at
            <= bytes.len() || at == pos) && (error is UnexpectedEof <==> at >= bytes.len()),
    decreases bits,
{
    if 0 <= pos < bytes.len() && bytes[pos] >= 0x80 && bits > 7 {
        law_signed_fits(bytes, pos + 1, bits - 7);
        lemma2_to64();
        lemma_pow2_adds(7, (bits - 8) as nat);
    }
}

/// The shortest encoding of an unsigned integer.
pub open spec fn encode_unsigned(value: int) -> Seq<u8>
    decreases value,
{
    if value < 128 {
        seq![value as u8]
    } else {
        seq![(128 + value % 128) as u8] + encode_unsigned(value / 128)
    }
}

/// The shortest encoding of a signed integer.
pub open spec fn encode_signed(value: int) -> Seq<u8>
    decreases (if value < 0 { -value } else { value }),
{
    if -64 <= value < 64 {
        seq![(value % 128) as u8]
    } else {
        seq![(128 + value % 128) as u8] + encode_signed(value / 128)
    }
}

/// Whether `part` stands in `bytes` at `pos`.
pub open spec fn stands_at(part: Seq<u8>, bytes: Seq<u8>, pos: int) -> bool {
    &&& 0 <= pos
    &&& pos + part.len() <= bytes.len()
    &&& bytes.subrange(pos, pos + part.len()) == part
}

/// Where `head + tail` stands, `tail` stands after `head`.
pub proof fn lemma_stands_after(head: u8, tail: Seq<u8>, bytes: Seq<u8>, pos: int)
    requires
        stands_at(seq![head] + tail, bytes, pos),
    ensures
        bytes[pos] == head,
        stands_at(tail, bytes, pos + 1),
{
    let whole = seq![head] + tail;
    assert(bytes.subrange(pos, pos + whole.len())[0] == head);
    assert(bytes.subrange(pos + 1, pos + 1 + tail.len()) =~= tail) by {
        assert forall|i: int| 0 <= i < tail.len() implies bytes[pos + 1 + i] == tail[i] by {
            assert(bytes.subrange(pos, pos + whole.len())[i + 1] == whole[i + 1]);
        }
    }
}

/// Reading gives back every unsigned integer of the width that was written,
/// wherever it stands and whatever surrounds it.
pub proof fn law_unsigned_round_trip(bytes: Seq<u8>, pos: int, value: int, bits: int)
    requires
        1 <= bits,
        fits_unsigned(value, bits),
        stands_at(encode_unsigned(value), bytes, pos),
    ensures
        unsigned_at(bytes, pos, bits) == Ok::<(int, int), (LebError, int)>(
            (value, pos + encode_unsigned(value).len()),
        ),
    decreases value,
{
    if value < 128 {
        assert(bytes.subrange(pos, pos + 1)[0] == value as u8);
    } else {
        lemma2_to64();
        if bits <= 7 {
            lemma_pow2_grows(bits as nat, 7);
        }
        lemma_pow2_adds(7, (bits - 7) as nat);
        lemma_stands_after(
            (128 + value % 128) as u8,
            encode_unsigned(value / 128),
            bytes,
            pos,
        );
        law_unsigned_round_trip(bytes, pos + 1, value / 128, bits - 7);
    }
}

/// Reading gives back every signed integer of the width that was written,
/// wherever it stands and whatever surrounds it.
pub proof fn law_signed_round_trip(bytes: Seq<u8>, pos: int, value: int, bits: int)
    requires
        1 <= bits,
        fits_signed(value, bits),
        stands_at(encode_signed(value), bytes, pos),
    ensures
        signed_at(bytes, pos, bits) == Ok::<(int, int), (LebError, int)>(
            (value, pos + encode_signed(value).len()),
        ),
    decreases (if value < 0 { -value } else { value }),
{
    if -64 <= value < 64 {
        assert(bytes.subrange(pos, pos + 1)[0] == (value % 128) as u8);
    } else {
        lemma2_to64();
        if bits <= 7 {
            lemma_pow2_grows((bits - 1) as nat, 6);
        }
        lemma_pow2_adds(7, (bits - 8) as nat);
        lemma_stands_after((128 + value % 128) as u8, encode_signed(value / 128), bytes, pos);
        law_signed_round_trip(bytes, pos + 1, value / 128, bits - 7);
    }
}

/// A reading with its positions moved by `by`.
pub open spec fn moved(reading: Reading, by: int) -> Reading {
    match reading {
        Ok((value, next)) => Ok((value, next + by)),
        Err((error, at)) => Err((error, at + by)),
    }
}

/// What is read at a position depends on the bytes from there on alone.
pub proof fn law_unsigned_is_local(a: Seq<u8>, i: int, b: Seq<u8>, j: int, bits: int)
    requires
        0 <= i <= a.len(),
        0 <= j <= b.len(),
        a.skip(i) == b.skip(j),
    ensures
        unsigned_at(b, j, bits) == moved(unsigned_at(a, i, bits), j - i),
    decreases bits,
{
    assert(a.skip(i).len() == a.len() - i && b.skip(j).len() == b.len() - j);
    if i < a.len() {
        assert(a.skip(i)[0] == a[i] && b.skip(j)[0] == b[j]);
        if a[i] >= 0x80 && bits > 7 {
            assert(a.skip(i).skip(1) =~= a.skip(i + 1));
            assert(b.skip(j).skip(1) =~= b.skip(j + 1));
            law_unsigned_is_local(a, i + 1, b, j + 1, bits - 7);
        }
    }
}

/// What is read at a position depends on the bytes from there on alone.
pub proof fn law_signed_is_local(a: Seq<u8>, i: int, b: Seq<u8>, j: int, bits: int)
    requires
        0 <= i <= a.len(),
        0 <= j <= b.len(),
        a.skip(i) == b.skip(j),
    ensures
        signed_at(b, j, bits) == moved(signed_at(a, i, bits), j - i),
    decreases bits,
{
    assert(a.skip(i).len() == a.len() - i && b.skip(j).len() == b.len() - j);
    if i < a.len() {
        assert(a.skip(i)[0] == a[i] && b.skip(j)[0] == b[j]);
        if a[i] >= 0x80 && bits > 7 {
            assert(a.skip(i).skip(1) =~= a.skip(i + 1));
            assert(b.skip(j).skip(1) =~= b.skip(j + 1));
            law_signed_is_local(a, i + 1, b, j + 1, bits - 7);
        }
    }
}

/// A reading that succeeded never looked past the bytes it took: inputs that
/// agree up to there read alike.
pub proof fn law_unsigned_looks_no_further(a: Seq<u8>, b: Seq<u8>, pos: int, bits: int)
    requires
        0 <= pos,
        1 <= bits,
        unsigned_at(a, pos, bits) matches Ok((_, next)) && next <= b.len() && a.take(next)
            == b.take(next),
    ensures
        unsigned_at(b, pos, bits) == unsigned_at(a, pos, bits),
    decreases bits,
{
    law_unsigned_fits(a, pos, bits);
    let next = unsigned_at(a, pos, bits)->Ok_0.1;
    assert(a.take(next)[pos] == b.take(next)[pos]);
    if a[pos] >= 0x80 {
        law_unsigned_looks_no_further(a, b, pos + 1, bits - 7);
    }
}

/// A reading that succeeded never looked past the bytes it took: inputs that
/// agree up to there read alike.
pub proof fn law_signed_looks_no_further(a: Seq<u8>, b: Seq<u8>, pos: int, bits: int)
    requires
        0 <= pos,
        1 <= bits,
        signed_at(a, pos, bits) matches Ok((_, next)) && next <= b.len() && a.take(next)
            == b.take(next),
    ensures
        signed_at(b, pos, bits) == signed_at(a, pos, bits),
    decreases bits,
{
    law_signed_fits(a, pos, bits);
    let next = signed_at(a, pos, bits)->Ok_0.1;
    assert(a.take(next)[pos] == b.take(next)[pos]);
    if a[pos] >= 0x80 {
        law_signed_looks_no_further(a, b, pos + 1, bits - 7);
    }
}

/// The number that groups of seven bits make up, least significant group
/// first, whatever the high bits say.
pub open spec fn weighted(groups: Seq<u8>) -> int
    decreases groups.len(),
{
    if groups.len() == 0 {
        0
    } else {
        groups[0] % 128 + 128 * weighted(groups.drop_first())
    }
}

/// The same in two's complement: the top bit of the last group weighs
/// negative.
pub open spec fn weighted_signed(groups: Seq<u8>) -> int {
    if groups.last() % 128 >= 64 {
        weighted(groups) - pow2(7 * groups.len())
    } else {
        weighted(groups)
    }
}

/// Whether the bytes from `from` to `to` are one run: every byte but the last
/// says that another one follows.
pub open spec fn is_run(bytes: Seq<u8>, from: int, to: int) -> bool {
    &&& 0 <= from < to <= bytes.len()
    &&& forall|i: int| from <= i < to - 1 ==> #[trigger] bytes[i] >= 0x80
    &&& bytes[to - 1] < 0x80
}

/// Whether the bytes from `from` to `to` spell an unsigned integer of `bits`
/// bits, in the shortest way or with padding.
pub open spec fn unsigned_spelled(bytes: Seq<u8>, from: int, to: int, bits: int, value: int) -> bool {
    &&& is_run(bytes, from, to)
    &&& 7 * (to - from) < bits + 7
    &&& value == weighted(bytes.subrange(from, to))
    &&& fits_unsigned(value, bits)
}

/// Whether the bytes from `from` to `to` spell a signed integer of `bits`
/// bits, in the shortest way or with padding.
pub open spec fn signed_spelled(bytes: Seq<u8>, from: int, to: int, bits: int, value: int) -> bool {
    &&& is_run(bytes, from, to)
    &&& 7 * (to - from) < bits + 7
    &&& value == weighted_signed(bytes.subrange(from, to))
    &&& fits_signed(value, bits)
}

proof fn lemma_run_step(bytes: Seq<u8>, pos: int, to: int)
    requires
        0 <= pos < bytes.len(),
        bytes[pos] >= 0x80,
        pos + 1 < to <= bytes.len(),
    ensures
        is_run(bytes, pos, to) <==> is_run(bytes, pos + 1, to),
        weighted(bytes.subrange(pos, to)) == bytes[pos] - 0x80 + 128 * weighted(
            bytes.subrange(pos + 1, to),
        ),
        bytes.subrange(pos, to).last() == bytes.subrange(pos + 1, to).last(),
{
    assert(bytes.subrange(pos, to).drop_first() =~= bytes.subrange(pos + 1, to));
}

proof fn lemma_weighted_one(bytes: Seq<u8>, pos: int)
    requires
        0 <= pos < bytes.len(),
        bytes[pos] < 0x80,
    ensures
        weighted(bytes.subrange(pos, pos + 1)) == bytes[pos],
        bytes.subrange(pos, pos + 1).last() == bytes[pos],
{
    assert(bytes.subrange(pos, pos + 1).drop_first() =~= Seq::<u8>::empty());
    assert(weighted(Seq::<u8>::empty()) == 0);
}

/// An unsigned integer of some width is read exactly where bytes spell one:
/// what is read is the number that the groups make up, and it ends with the
/// first byte that says so.
pub proof fn law_unsigned_exactly(bytes: Seq<u8>, pos: int, next: int, bits: int, value: int)
    requires
        1 <= bits,
    ensures
        unsigned_at(bytes, pos, bits) == Ok::<(int, int), (LebError, int)>((value, next))
            <==> unsigned_spelled(bytes, pos, next, bits, value),
    decreases bits,
{
    if 0 <= pos < bytes.len() {
        if bytes[pos] < 0x80 {
            lemma_weighted_one(bytes, pos);
        } else if bits > 7 && pos + 1 < next <= bytes.len() {
            lemma2_to64();
            lemma_pow2_adds(7, (bits - 7) as nat);
            lemma_run_step(bytes, pos, next);
            law_unsigned_exactly(
                bytes,
                pos + 1,
                next,
                bits - 7,
                weighted(bytes.subrange(pos + 1, next)),
            );
            if let Ok((high, n)) = unsigned_at(bytes, pos + 1, bits - 7) {
                law_unsigned_exactly(bytes, pos + 1, n, bits - 7, high);
            }
        } else if bits > 7 {
            law_unsigned_fits(bytes, pos, bits);
            law_unsigned_fits(bytes, pos + 1, bits - 7);
        }
    }
}

/// A signed integer of some width is read exactly where bytes spell one.
pub proof fn law_signed_exactly(bytes: Seq<u8>, pos: int, next: int, bits: int, value: int)
    requires
        1 <= bits,
    ensures
        signed_at(bytes, pos, bits) == Ok::<(int, int), (LebError, int)>((value, next))
            <==> signed_spelled(bytes, pos, next, bits, value),
    decreases bits,
{
    if 0 <= pos < bytes.len() {
        lemma2_to64();
        if bytes[pos] < 0x80 {
            lemma_weighted_one(bytes, pos);
        } else if bits > 7 && pos + 1 < next <= bytes.len() {
            lemma_pow2_adds(7, (bits - 8) as nat);
            lemma_pow2_adds(7, (7 * (next - pos - 1)) as nat);
            lemma_run_step(bytes, pos, next);
            law_signed_exactly(
                bytes,
                pos + 1,
                next,
                bits - 7,
                weighted_signed(bytes.subrange(pos + 1, next)),
            );
            if let Ok((high, n)) = signed_at(bytes, pos + 1, bits - 7) {
                law_signed_exactly(bytes, pos + 1, n, bits - 7, high);
            }
        } else if bits > 7 {
            law_signed_fits(bytes, pos, bits);
            law_signed_fits(bytes, pos + 1, bits - 7);
        }
    }
}

/// Where and why an unsigned integer breaks: at the end of the input if that
/// comes before the run ends and before the last byte that the width allows;
/// otherwise at that last byte, which goes on or makes the number too large.
pub proof fn law_unsigned_faults(bytes: Seq<u8>, pos: int, bits: int)
    requires
        0 <= pos <= bytes.len(),
        1 <= bits,
    ensures
        unsigned_at(bytes, pos, bits) matches Err((error, at)) ==> {
            &&& pos <= at <= bytes.len()
            &&& forall|i: int| pos <= i < at ==> #[trigger] bytes[i] >= 0x80
            &&& match error {
                LebError::UnexpectedEof => at == bytes.len() && 7 * (at - pos) < bits,
                LebError::Overflow => {
                    &&& at < bytes.len()
                    &&& 7 * (at - pos) < bits <= 7 * (at - pos + 1)
                    &&& bytes[at] >= 0x80 || !fits_unsigned(
                        weighted(bytes.subrange(pos, at + 1)),
                        bits,
                    )
                },
            }
        },
    decreases bits,
{
    if pos < bytes.len() {
        lemma2_to64();
        if bytes[pos] < 0x80 {
            lemma_weighted_one(bytes, pos);
            if bits > 7 {
                lemma_pow2_grows(7, bits as nat);
            }
        } else if bits > 7 {
            law_unsigned_faults(bytes, pos + 1, bits - 7);
            lemma_pow2_adds(7, (bits - 7) as nat);
            if let Err((error, at)) = unsigned_at(bytes, pos + 1, bits - 7) {
                if at < bytes.len() {
                    lemma_run_step(bytes, pos, at + 1);
                }
            }
        }
    }
}

/// Where and why a signed integer breaks: as an unsigned one does.
pub proof fn law_signed_faults(bytes: Seq<u8>, pos: int, bits: int)
    requires
        0 <= pos <= bytes.len(),
        1 <= bits,
    ensures
        signed_at(bytes, pos, bits) matches Err((error, at)) ==> {
            &&& pos <= at <= bytes.len()
            &&& forall|i: int| pos <= i < at ==> #[trigger] bytes[i] >= 0x80
            &&& match error {
                LebError::UnexpectedEof => at == bytes.len() && 7 * (at - pos) < bits,
                LebError::Overflow => {
                    &&& at < bytes.len()
                    &&& 7 * (at - pos) < bits <= 7 * (at - pos + 1)
                    &&& bytes[at] >= 0x80 || !fits_signed(
                        weighted_signed(bytes.subrange(pos, at + 1)),
                        bits,
                    )
                },
            }
        },
    decreases bits,
{
    if pos < bytes.len() {
        lemma2_to64();
        if bytes[pos] < 0x80 {
            lemma_weighted_one(bytes, pos);
            if bits > 7 {
                lemma_pow2_grows(6, (bits - 1) as nat);
            }
        } else if bits > 7 {
            law_signed_faults(bytes, pos + 1, bits - 7);
            lemma_pow2_adds(7, (bits - 8) as nat);
            if let Err((error, at)) = signed_at(bytes, pos + 1, bits - 7) {
                if at < bytes.len() {
                    lemma_run_step(bytes, pos, at + 1);
                    lemma_pow2_adds(7, (7 * (at - pos)) as nat);
                }
            }
        }
    }
}

} // verus!

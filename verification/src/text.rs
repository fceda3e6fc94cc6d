//! Text: reading it from bytes, and rendering numbers as it.

use vstd::prelude::*;
use vstd::string::*;

verus! {

/// The text that `bytes` encode, if they are valid UTF-8.
///
/// Calls `std::str::from_utf8`, which is taken to accept exactly the valid
/// UTF-8 encodings and to return the characters they encode.
#[verifier::external_body]
pub(crate) fn from_utf8(bytes: &[u8]) -> (res: Option<&str>)
    ensures
        match res {
            Some(text) => vstd::utf8::valid_utf8(bytes@) && text@ == vstd::utf8::decode_utf8(
                bytes@,
            ),
            None => !vstd::utf8::valid_utf8(bytes@),
        },
{
    std::str::from_utf8(bytes).ok()
}

/// The character of a digit, in bases up to sixteen.
pub open spec fn digit(d: int) -> char {
    if d < 10 {
        (48 + d) as char
    } else {
        (87 + d) as char
    }
}

/// A number in decimal, without leading zeros.
pub open spec fn decimal(n: int) -> Seq<char>
    decreases n,
{
    if n < 10 {
        seq![digit(n)]
    } else {
        decimal(n / 10).push(digit(n % 10))
    }
}

/// A byte as `0x` and two lower-case hexadecimal digits.
pub open spec fn hex(byte: u8) -> Seq<char> {
    seq!['0', 'x', digit(byte as int / 16), digit(byte as int % 16)]
}

/// The digit `d` as text.
fn digit_text(d: u8) -> (res: &'static str)
    requires
        d < 16,
    ensures
        res@ == seq![digit(d as int)],
{
    proof {
        reveal_strlit("0");
        reveal_strlit("1");
        reveal_strlit("2");
        reveal_strlit("3");
        reveal_strlit("4");
        reveal_strlit("5");
        reveal_strlit("6");
        reveal_strlit("7");
        reveal_strlit("8");
        reveal_strlit("9");
        reveal_strlit("a");
        reveal_strlit("b");
        reveal_strlit("c");
        reveal_strlit("d");
        reveal_strlit("e");
        reveal_strlit("f");
    }
    match d {
        0 => "0",
        1 => "1",
        2 => "2",
        3 => "3",
        4 => "4",
        5 => "5",
        6 => "6",
        7 => "7",
        8 => "8",
        9 => "9",
        10 => "a",
        11 => "b",
        12 => "c",
        13 => "d",
        14 => "e",
        _ => "f",
    }
}

/// Appends `n` in decimal.
pub(crate) fn append_decimal(text: &mut String, n: usize)
    ensures
        final(text)@ == old(text)@ + decimal(n as int),
    decreases n,
{
    if n >= 10 {
        append_decimal(text, n / 10);
    }
    text.append(digit_text((n % 10) as u8));
}

/// Appends `byte` in hexadecimal.
pub(crate) fn append_hex(text: &mut String, byte: u8)
    ensures
        final(text)@ == old(text)@ + hex(byte),
{
    proof {
        reveal_strlit("0x");
    }
    text.append("0x");
    text.append(digit_text(byte / 16));
    text.append(digit_text(byte % 16));
}

} // verus!

//! What holds of everything that is rendered as text.

use crate::instr::DecodeErrorKind;
use crate::leb::LebError;
use crate::parse::ParseErrorKind;
use crate::text;
use crate::types;
use crate::types::{ExternKind, FuncTypeModel, ValType};
use vstd::prelude::*;

verus! {

/// A byte encodes a value type exactly if it is the byte of that type, and a
/// kind exactly if it is the number of that kind.
pub proof fn law_one_byte_each(byte: u8, t: ValType, kind: ExternKind)
    ensures
        ValType::encoded_by(byte) == Some(t) <==> byte == match t {
            ValType::I32 => 0x7F,
            ValType::I64 => 0x7E,
            ValType::F32 => 0x7D,
            ValType::F64 => 0x7Cu8,
        },
        ExternKind::encoded_by(byte) == Some(kind) <==> byte == match kind {
            ExternKind::Func => 0,
            ExternKind::Table => 1,
            ExternKind::Memory => 2,
            ExternKind::Global => 3u8,
        },
{
}

/// The name of a value type is three characters: `i` or `f`, then its width.
pub proof fn law_val_type_text(t: ValType)
    ensures
        t.text() == match t {
            ValType::I32 => seq!['i', '3', '2'],
            ValType::I64 => seq!['i', '6', '4'],
            ValType::F32 => seq!['f', '3', '2'],
            ValType::F64 => seq!['f', '6', '4'],
        },
{
    reveal_strlit("i32");
    reveal_strlit("i64");
    reveal_strlit("f32");
    reveal_strlit("f64");
    assert(t.text() =~= match t {
        ValType::I32 => seq!['i', '3', '2'],
        ValType::I64 => seq!['i', '6', '4'],
        ValType::F32 => seq!['f', '3', '2'],
        ValType::F64 => seq!['f', '6', '4'],
    });
}

/// The text of a list names every type in it: nothing for an empty list, the
/// name of an only type, and a comma, a space and a name for each further one.
pub proof fn law_list_text_grows(types: Seq<ValType>, t: ValType)
    ensures
        types::list_text(Seq::empty()) == Seq::<char>::empty(),
        types::list_text(types.push(t)) == if types.len() == 0 {
            t.text()
        } else {
            types::list_text(types) + ", "@ + t.text()
        },
{
    assert(types.push(t).drop_last() =~= types);
}

/// One more type in a list, seen from the longer list.
proof fn lemma_list_text_step(list: Seq<ValType>)
    requires
        list.len() > 1,
    ensures
        types::list_text(list) == types::list_text(list.drop_last()) + seq![',', ' ']
            + list.last().text(),
        list.last().text().len() == 3,
{
    law_val_type_text(list.last());
    reveal_strlit(", ");
    assert(", "@ =~= seq![',', ' ']);
}

/// The text of a list is three characters per type and two between any two.
pub proof fn law_list_text_len(list: Seq<ValType>)
    ensures
        types::list_text(list).len() == if list.len() == 0 {
            0
        } else {
            5 * list.len() - 2
        },
    decreases list.len(),
{
    if list.len() == 1 {
        law_val_type_text(list[0]);
    } else if list.len() > 1 {
        law_list_text_len(list.drop_last());
        lemma_list_text_step(list);
    }
}

/// The name of the `k`th type of a list starts at character `5 * k` of its
/// text.
pub proof fn law_list_text_names(list: Seq<ValType>, k: int)
    requires
        0 <= k < list.len(),
    ensures
        types::list_text(list).len() >= 5 * k + 3,
        types::list_text(list).subrange(5 * k, 5 * k + 3) == list[k].text(),
    decreases list.len(),
{
    let whole = types::list_text(list);
    law_list_text_len(list);
    if list.len() == 1 {
        assert(whole.subrange(0, 3) =~= list[0].text());
    } else {
        let before = list.drop_last();
        let start = types::list_text(before);
        law_list_text_len(before);
        lemma_list_text_step(list);
        if k < before.len() {
            law_list_text_names(before, k);
            assert(whole.subrange(5 * k, 5 * k + 3) =~= start.subrange(5 * k, 5 * k + 3));
        } else {
            assert(whole.subrange(5 * k, 5 * k + 3) =~= list[k].text());
        }
    }
}

/// Nothing in the text of a list closes a parenthesis.
proof fn lemma_list_text_is_open(list: Seq<ValType>, i: int)
    requires
        0 <= i < types::list_text(list).len(),
    ensures
        types::list_text(list)[i] != ')',
    decreases list.len(),
{
    if list.len() == 1 {
        law_val_type_text(list[0]);
    } else if list.len() > 1 {
        let start = types::list_text(list.drop_last());
        lemma_list_text_step(list);
        law_val_type_text(list.last());
        if i < start.len() {
            lemma_list_text_is_open(list.drop_last(), i);
        } else if i >= start.len() + 2 {
            assert(types::list_text(list)[i] == list.last().text()[i - start.len() - 2]);
        }
    }
}

/// Value types of the same name are the same type.
proof fn lemma_val_type_text_tells_all(a: ValType, b: ValType)
    requires
        a.text() == b.text(),
    ensures
        a == b,
{
    law_val_type_text(a);
    law_val_type_text(b);
    assert(a.text()[0] == b.text()[0] && a.text()[1] == b.text()[1]);
}

/// Lists of the same text are the same list.
pub proof fn law_list_text_tells_all(a: Seq<ValType>, b: Seq<ValType>)
    requires
        types::list_text(a) == types::list_text(b),
    ensures
        a == b,
{
    law_list_text_len(a);
    law_list_text_len(b);
    assert forall|k: int| 0 <= k < a.len() implies a[k] == b[k] by {
        law_list_text_names(a, k);
        law_list_text_names(b, k);
        lemma_val_type_text_tells_all(a[k], b[k]);
    }
    assert(a =~= b);
}

/// What follows the arrow in a signature: `()` for no result, the name of an
/// only result, all of them in parentheses otherwise.
pub open spec fn result_text(results: Seq<ValType>) -> Seq<char> {
    if results.len() == 1 {
        results[0].text()
    } else {
        "("@ + types::list_text(results) + ")"@
    }
}

/// A signature is the parameters in parentheses, an arrow, and the results.
pub proof fn law_signature_text(signature: FuncTypeModel)
    ensures
        signature.text() == "("@ + types::list_text(signature.params) + ") -> "@ + result_text(
            signature.results,
        ),
{
    if signature.results.len() == 0 {
        reveal_strlit("(");
        reveal_strlit(")");
        reveal_strlit("()");
        assert("("@ + types::list_text(signature.results) + ")"@ =~= "()"@);
    }
}

/// Results of the same text are the same results.
proof fn lemma_result_text_tells_all(a: Seq<ValType>, b: Seq<ValType>)
    requires
        result_text(a) == result_text(b),
    ensures
        a == b,
{
    reveal_strlit("(");
    reveal_strlit(")");
    law_list_text_len(a);
    law_list_text_len(b);
    let x = types::list_text(a);
    let y = types::list_text(b);
    if a.len() == 1 || b.len() == 1 {
        if a.len() == 1 {
            law_val_type_text(a[0]);
        }
        if b.len() == 1 {
            law_val_type_text(b[0]);
        }
        assert(a.len() == 1 && b.len() == 1);
        lemma_val_type_text_tells_all(a[0], b[0]);
        assert(a =~= b);
    } else {
        assert(("("@ + x + ")"@).subrange(1, 1 + x.len() as int) =~= x);
        assert(("("@ + y + ")"@).subrange(1, 1 + y.len() as int) =~= y);
        law_list_text_tells_all(a, b);
    }
}

/// A text splits where a parenthesis first closes in one way only.
proof fn lemma_split_at_parenthesis(x: Seq<char>, r: Seq<char>, y: Seq<char>, t: Seq<char>)
    requires
        "("@ + x + ") -> "@ + r == "("@ + y + ") -> "@ + t,
        forall|i: int| 0 <= i < x.len() ==> #[trigger] x[i] != ')',
        forall|i: int| 0 <= i < y.len() ==> #[trigger] y[i] != ')',
    ensures
        x == y,
        r == t,
{
    reveal_strlit("(");
    reveal_strlit(") -> ");
    let a = "("@ + x + ") -> "@ + r;
    let b = "("@ + y + ") -> "@ + t;
    let m = x.len() as int;
    let n = y.len() as int;
    assert(a[1 + m] == ')');
    assert(b[1 + n] == ')');
    if m < n {
        assert(b[1 + m] == y[m]);
    } else if n < m {
        assert(a[1 + n] == x[n]);
    }
    assert(a.subrange(1, 1 + m) =~= x);
    assert(b.subrange(1, 1 + n) =~= y);
    assert(a.subrange(6 + m, a.len() as int) =~= r);
    assert(b.subrange(6 + n, b.len() as int) =~= t);
}

/// Signatures of the same text have the same parameters and the same results.
pub proof fn law_signature_text_tells_all(a: FuncTypeModel, b: FuncTypeModel)
    requires
        a.text() == b.text(),
    ensures
        a == b,
{
    law_signature_text(a);
    law_signature_text(b);
    let x = types::list_text(a.params);
    let y = types::list_text(b.params);
    assert forall|i: int| 0 <= i < x.len() implies #[trigger] x[i] != ')' by {
        lemma_list_text_is_open(a.params, i);
    }
    assert forall|i: int| 0 <= i < y.len() implies #[trigger] y[i] != ')' by {
        lemma_list_text_is_open(b.params, i);
    }
    lemma_split_at_parenthesis(x, result_text(a.results), y, result_text(b.results));
    law_list_text_tells_all(a.params, b.params);
    lemma_result_text_tells_all(a.results, b.results);
}

/// The number that a decimal digit stands for.
pub open spec fn digit_value(c: char) -> int {
    c as int - '0' as int
}

/// The number that decimal digits stand for.
pub open spec fn decimal_value(digits: Seq<char>) -> int
    decreases digits.len(),
{
    if digits.len() == 0 {
        0
    } else {
        10 * decimal_value(digits.drop_last()) + digit_value(digits.last())
    }
}

/// A number in decimal is written in digits alone, without leading zeros, and
/// they stand for that number.
pub proof fn law_decimal(n: int)
    requires
        0 <= n,
    ensures
        decimal_value(text::decimal(n)) == n,
        text::decimal(n).len() >= 1,
        forall|i: int|
            0 <= i < text::decimal(n).len() ==> '0' <= #[trigger] text::decimal(n)[i] <= '9',
        n > 0 ==> text::decimal(n)[0] != '0',
        n == 0 ==> text::decimal(n) == seq!['0'],
    decreases n,
{
    let digits = text::decimal(n);
    if n < 10 {
        assert(digits.drop_last() =~= Seq::empty());
        assert(decimal_value(Seq::empty()) == 0);
        assert(digits[0] as int == 48 + n);
    } else {
        law_decimal(n / 10);
        assert(digits.drop_last() =~= text::decimal(n / 10));
        assert(digits.last() as int == 48 + n % 10);
        assert forall|i: int| 0 <= i < digits.len() implies '0' <= #[trigger] digits[i]
            <= '9' by {
            if i < digits.len() - 1 {
                assert(digits[i] == text::decimal(n / 10)[i]);
            }
        }
    }
}

/// The number that a lower-case hexadecimal digit stands for.
pub open spec fn hex_value(c: char) -> int {
    if '0' <= c <= '9' {
        c as int - '0' as int
    } else {
        10 + (c as int - 'a' as int)
    }
}

/// A byte in hexadecimal is `0x` and two lower-case digits, which stand for
/// that byte.
pub proof fn law_hex(byte: u8)
    ensures
        ({
            let digits = text::hex(byte);
            &&& digits.len() == 4
            &&& digits[0] == '0'
            &&& digits[1] == 'x'
            &&& '0' <= digits[2] <= '9' || 'a' <= digits[2] <= 'f'
            &&& '0' <= digits[3] <= '9' || 'a' <= digits[3] <= 'f'
            &&& 16 * hex_value(digits[2]) + hex_value(digits[3]) == byte
        }),
{
}

/// The messages that carry a value say it as it is, whatever it is.
pub proof fn law_messages_carry_their_value(byte: u8, index: u32, error: LebError)
    ensures
        ParseErrorKind::UnknownSectionId(byte).text() == "unknown section id "@ + text::decimal(
            byte as int,
        ),
        ParseErrorKind::InvalidValType(byte).text() == "invalid value type byte "@ + text::hex(byte),
        ParseErrorKind::InvalidFuncType(byte).text() == "invalid function type tag "@ + text::hex(
            byte,
        ) + " (expected 0x60)"@,
        ParseErrorKind::InvalidExternKind(byte).text() == "invalid import/export kind byte "@
            + text::hex(byte),
        ParseErrorKind::TypeIndexOutOfRange(index).text() == "type index "@ + text::decimal(
            index as int,
        ) + " is out of range"@,
        DecodeErrorKind::UnsupportedOpcode(byte).text() == "unsupported opcode "@ + text::hex(byte),
        ParseErrorKind::Leb(error).text() == error.text(),
        DecodeErrorKind::Leb(error).text() == error.text(),
{
}

} // verus!

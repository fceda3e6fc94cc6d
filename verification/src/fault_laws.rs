//! Why and where each reader of the binary format gives up.
//!
//! A predicate named `.._breaks` says which fault something has at a position.
//! Where something is made of parts, the fault is that of the first part that
//! breaks, and everything before that part is spelled as it should be. Offsets
//! count from the start of the body.

use crate::fault::Fault;
use crate::grammar;
use crate::grammar::Parsed;
use crate::instr::DecodeError;
use crate::leb;
use crate::parse::{ParseError, ParseErrorKind};
use crate::spelling;
use crate::types::ValType;
use vstd::prelude::*;

verus! {

/// The fault of that kind at that offset.
pub open spec fn fault_at(offset: int, kind: ParseErrorKind) -> Fault<ParseErrorKind> {
    Fault { offset, kind }
}

/// An error is the fault it stands for: the same offset and the same kind, and
/// counted from earlier it is that much further on.
pub proof fn law_error_is_its_fault(parse: ParseError, decode: DecodeError, base: int)
    ensures
        parse@.offset == parse.offset,
        parse@.kind == parse.kind,
        decode@.offset == decode.offset,
        decode@.kind == decode.kind,
        parse@.shifted(base).offset == parse.offset + base,
        parse@.shifted(base).kind == parse.kind,
        decode@.shifted(base).offset == decode.offset + base,
        decode@.shifted(base).kind == decode.kind,
{
}

/// A byte is missing.
pub open spec fn byte_breaks(body: Seq<u8>, pos: int, fault: Fault<ParseErrorKind>) -> bool {
    &&& !(0 <= pos < body.len())
    &&& fault == fault_at(pos, ParseErrorKind::UnexpectedEof)
}

/// An integer breaks, at the byte that breaks it.
pub open spec fn u32_breaks(body: Seq<u8>, pos: int, fault: Fault<ParseErrorKind>) -> bool {
    fault.kind matches ParseErrorKind::Leb(error) && leb::unsigned_at(body, pos, 32) == Err::<
        (int, int),
        (leb::LebError, int),
    >((error, fault.offset))
}

/// Why a `u32` is not read.
pub proof fn law_u32_faults(body: Seq<u8>, pos: int)
    ensures
        grammar::u32_at(body, pos) matches Err(fault) ==> u32_breaks(body, pos, fault),
{
}

/// A name whose length is read breaks at the end of the body if it does not
/// fit, and at its first byte if its bytes are the UTF-8 of no name.
pub open spec fn raw_name_breaks(
    body: Seq<u8>,
    start: int,
    len: u32,
    fault: Fault<ParseErrorKind>,
) -> bool {
    if start + len > body.len() {
        fault == fault_at(body.len() as int, ParseErrorKind::UnexpectedEof)
    } else {
        &&& fault == fault_at(start, ParseErrorKind::InvalidUtf8)
        &&& forall|name: Seq<char>| #[trigger]
            vstd::utf8::encode_utf8(name) != body.subrange(start, start + len)
    }
}

/// A name breaks.
pub open spec fn name_breaks(body: Seq<u8>, pos: int, fault: Fault<ParseErrorKind>) -> bool {
    ||| u32_breaks(body, pos, fault)
    ||| exists|start: int, len: u32| #[trigger]
        spelling::u32_spelled(body, pos, start, len) && raw_name_breaks(body, start, len, fault)
}

/// Why a name is not read.
pub proof fn law_name_faults(body: Seq<u8>, pos: int)
    ensures
        grammar::name_at(body, pos) matches Err(fault) ==> name_breaks(body, pos, fault),
{
    if let Err(fault) = grammar::name_at(body, pos) {
        if let Ok((len, start)) = grammar::u32_at(body, pos) {
            spelling::law_u32_exactly(body, pos, start, len);
            if start + len <= body.len() {
                assert forall|name: Seq<char>| #[trigger]
                    vstd::utf8::encode_utf8(name) != body.subrange(start, start + len) by {
                    vstd::utf8::encode_utf8_valid_utf8(name);
                }
            }
            assert(raw_name_breaks(body, start, len, fault));
        }
    }
}

/// Limits break: the flag is missing, or neither `0x00` nor `0x01`, or one of
/// the numbers breaks.
pub open spec fn limits_break(body: Seq<u8>, pos: int, fault: Fault<ParseErrorKind>) -> bool {
    ||| byte_breaks(body, pos, fault)
    ||| 0 <= pos < body.len() && body[pos] > 0x01 && fault == fault_at(
        pos,
        ParseErrorKind::InvalidLimits,
    )
    ||| 0 <= pos < body.len() && body[pos] <= 0x01 && u32_breaks(body, pos + 1, fault)
    ||| spelling::byte_spelled(body, pos, 0x01) && exists|mid: int, min: u32| #[trigger]
        spelling::u32_spelled(body, pos + 1, mid, min) && u32_breaks(body, mid, fault)
}

/// Why limits are not accepted.
pub proof fn law_limits_faults(body: Seq<u8>, pos: int)
    ensures
        grammar::limits_at(body, pos) matches Err(fault) ==> limits_break(body, pos, fault),
{
    if let Ok((min, mid)) = grammar::u32_at(body, pos + 1) {
        spelling::law_u32_exactly(body, pos + 1, mid, min);
    }
}

/// A value type breaks: its byte is missing, or that of no value type.
pub open spec fn val_type_breaks(body: Seq<u8>, pos: int, fault: Fault<ParseErrorKind>) -> bool {
    ||| byte_breaks(body, pos, fault)
    ||| {
        &&& 0 <= pos < body.len()
        &&& fault == fault_at(pos, ParseErrorKind::InvalidValType(body[pos]))
        &&& forall|t: ValType| !#[trigger] spelling::val_type_spelled(body, pos, pos + 1, t)
    }
}

/// Why a value type is not read.
pub proof fn law_val_type_faults(body: Seq<u8>, pos: int)
    ensures
        grammar::val_type_at(body, pos) matches Err(fault) ==> val_type_breaks(body, pos, fault),
{
}

/// A vector whose `n` items start at `first` breaks at the item after `xs`.
pub open spec fn items_break<T>(
    item: spec_fn(int, int, T) -> bool,
    breaks: spec_fn(int, Fault<ParseErrorKind>) -> bool,
    first: int,
    n: u32,
    fault: Fault<ParseErrorKind>,
    xs: Seq<T>,
    positions: Seq<int>,
) -> bool {
    &&& spelling::items_spelled(item, first, positions.last(), xs, positions)
    &&& xs.len() < n
    &&& breaks(positions.last(), fault)
}

/// A vector breaks: its count does, or one of its items after the items
/// before it.
pub open spec fn vec_breaks<T>(
    body: Seq<u8>,
    item: spec_fn(int, int, T) -> bool,
    breaks: spec_fn(int, Fault<ParseErrorKind>) -> bool,
    pos: int,
    fault: Fault<ParseErrorKind>,
) -> bool {
    ||| u32_breaks(body, pos, fault)
    ||| exists|first: int, n: u32, xs: Seq<T>, positions: Seq<int>|
        #[trigger] spelling::u32_spelled(body, pos, first, n) && #[trigger] items_break(
            item,
            breaks,
            first,
            n,
            fault,
            xs,
            positions,
        )
}

proof fn lemma_items_break<T>(
    read: spec_fn(int) -> Parsed<T>,
    item: spec_fn(int, int, T) -> bool,
    breaks: spec_fn(int, Fault<ParseErrorKind>) -> bool,
    first: int,
    n: nat,
) -> (found: (Seq<T>, Seq<int>))
    requires
        spelling::reads_exactly(read, item),
        forall|p: int| (#[trigger] read(p)) matches Err(fault) ==> breaks(p, fault),
    ensures
        grammar::items(read, first, n) matches Err(fault) ==> {
            &&& spelling::items_spelled(item, first, found.1.last(), found.0, found.1)
            &&& found.0.len() < n
            &&& breaks(found.1.last(), fault)
        },
    decreases n,
{
    if n == 0 {
        (Seq::empty(), Seq::empty())
    } else {
        if let Ok((xs, p)) = grammar::items(read, first, (n - 1) as nat) {
            let positions = spelling::lemma_items_spelled(read, item, first, (n - 1) as nat);
            let _ = read(p);
            (xs, positions)
        } else {
            lemma_items_break(read, item, breaks, first, (n - 1) as nat)
        }
    }
}

proof fn lemma_vec_breaks<T>(
    body: Seq<u8>,
    read: spec_fn(int) -> Parsed<T>,
    item: spec_fn(int, int, T) -> bool,
    breaks: spec_fn(int, Fault<ParseErrorKind>) -> bool,
    pos: int,
)
    requires
        spelling::reads_exactly(read, item),
        forall|p: int| (#[trigger] read(p)) matches Err(fault) ==> breaks(p, fault),
    ensures
        grammar::vec_at(body, read, pos) matches Err(fault) ==> vec_breaks(
            body,
            item,
            breaks,
            pos,
            fault,
        ),
{
    if let Err(fault) = grammar::vec_at(body, read, pos) {
        if let Ok((n, first)) = grammar::u32_at(body, pos) {
            spelling::law_u32_exactly(body, pos, first, n);
            let (xs, positions) = lemma_items_break(read, item, breaks, first, n as nat);
            assert(spelling::u32_spelled(body, pos, first, n));
            assert(items_break(item, breaks, first, n, fault, xs, positions));
        }
    }
}

/// Value types break.
pub open spec fn val_types_break(body: Seq<u8>, pos: int, fault: Fault<ParseErrorKind>) -> bool {
    vec_breaks(
        body,
        spelling::val_type_items(body),
        |p: int, f: Fault<ParseErrorKind>| val_type_breaks(body, p, f),
        pos,
        fault,
    )
}

proof fn lemma_val_types_break(body: Seq<u8>, pos: int)
    ensures
        grammar::vec_at(body, grammar::val_types(body), pos) matches Err(fault)
            ==> val_types_break(body, pos, fault),
{
    let read = grammar::val_types(body);
    let breaks = |p: int, f: Fault<ParseErrorKind>| val_type_breaks(body, p, f);
    spelling::lemma_val_types_read(body);
    assert forall|p: int| (#[trigger] read(p)) matches Err(fault) ==> breaks(p, fault) by {
        law_val_type_faults(body, p);
    }
    lemma_vec_breaks(body, read, spelling::val_type_items(body), breaks, pos);
}

/// A function type breaks: its tag is missing or not `0x60`, or the parameters
/// break, or the results after them.
pub open spec fn func_type_breaks(body: Seq<u8>, pos: int, fault: Fault<ParseErrorKind>) -> bool {
    ||| byte_breaks(body, pos, fault)
    ||| 0 <= pos < body.len() && body[pos] != 0x60 && fault == fault_at(
        pos,
        ParseErrorKind::InvalidFuncType(body[pos]),
    )
    ||| spelling::byte_spelled(body, pos, 0x60) && val_types_break(body, pos + 1, fault)
    ||| spelling::byte_spelled(body, pos, 0x60) && exists|mid: int, params: Seq<ValType>|
        #[trigger] spelling::val_types_spelled(body, pos + 1, mid, params) && val_types_break(
            body,
            mid,
            fault,
        )
}

/// Why a function type is not read.
pub proof fn law_func_type_faults(body: Seq<u8>, pos: int)
    ensures
        grammar::func_type_at(body, pos) matches Err(fault) ==> func_type_breaks(body, pos, fault),
{
    lemma_val_types_break(body, pos + 1);
    if let Ok((params, mid)) = grammar::vec_at(body, grammar::val_types(body), pos + 1) {
        spelling::lemma_val_types_exactly(body, pos + 1, mid, params);
        lemma_val_types_break(body, mid);
    }
}

/// A type index breaks: its integer does, or it names none of the types.
pub open spec fn type_index_breaks(
    body: Seq<u8>,
    type_count: nat,
    pos: int,
    fault: Fault<ParseErrorKind>,
) -> bool {
    ||| u32_breaks(body, pos, fault)
    ||| exists|next: int, index: u32| #[trigger]
        spelling::u32_spelled(body, pos, next, index) && index >= type_count && fault == fault_at(
            pos,
            ParseErrorKind::TypeIndexOutOfRange(index),
        )
}

/// Why a type index is not accepted.
pub proof fn law_type_index_faults(body: Seq<u8>, type_count: nat, pos: int)
    ensures
        grammar::type_index_at(body, type_count, pos) matches Err(fault) ==> type_index_breaks(
            body,
            type_count,
            pos,
            fault,
        ),
{
    if let Ok((index, next)) = grammar::u32_at(body, pos) {
        spelling::law_u32_exactly(body, pos, next, index);
    }
}

/// An import description breaks: its kind is missing or unknown, or what
/// follows the kind breaks.
pub open spec fn import_desc_breaks(
    body: Seq<u8>,
    type_count: nat,
    pos: int,
    fault: Fault<ParseErrorKind>,
) -> bool {
    if !(0 <= pos < body.len()) {
        byte_breaks(body, pos, fault)
    } else if body[pos] == 0x00 {
        type_index_breaks(body, type_count, pos + 1, fault)
    } else if body[pos] == 0x01 {
        ||| byte_breaks(body, pos + 1, fault)
        ||| pos + 1 < body.len() && limits_break(body, pos + 2, fault)
    } else if body[pos] == 0x02 {
        limits_break(body, pos + 1, fault)
    } else if body[pos] == 0x03 {
        ||| val_type_breaks(body, pos + 1, fault)
        ||| byte_breaks(body, pos + 2, fault) && exists|t: ValType| #[trigger]
            spelling::val_type_spelled(body, pos + 1, pos + 2, t)
    } else {
        fault == fault_at(pos, ParseErrorKind::InvalidExternKind(body[pos]))
    }
}

/// Why an import description is not read.
pub proof fn law_import_desc_faults(body: Seq<u8>, type_count: nat, pos: int)
    ensures
        grammar::import_desc_at(body, type_count, pos) matches Err(fault) ==> import_desc_breaks(
            body,
            type_count,
            pos,
            fault,
        ),
{
    law_type_index_faults(body, type_count, pos + 1);
    law_limits_faults(body, pos + 1);
    law_limits_faults(body, pos + 2);
    law_val_type_faults(body, pos + 1);
    if let Ok((t, next)) = grammar::val_type_at(body, pos + 1) {
        spelling::law_val_type_exactly(body, pos + 1, next, t);
    }
}

/// An import breaks: the name of its module does, or its own after that, or
/// its description after both.
pub open spec fn import_breaks(
    body: Seq<u8>,
    type_count: nat,
    pos: int,
    fault: Fault<ParseErrorKind>,
) -> bool {
    ||| name_breaks(body, pos, fault)
    ||| exists|p: int, module: Seq<char>| #[trigger]
        spelling::name_spelled(body, pos, p, module) && name_breaks(body, p, fault)
    ||| exists|p: int, module: Seq<char>, q: int, name: Seq<char>|
        #[trigger] spelling::name_spelled(body, pos, p, module)
            && #[trigger] spelling::name_spelled(body, p, q, name) && import_desc_breaks(
            body,
            type_count,
            q,
            fault,
        )
}

/// Why an import is not read.
pub proof fn law_import_faults(body: Seq<u8>, type_count: nat, pos: int)
    ensures
        grammar::import_at(body, type_count, pos) matches Err(fault) ==> import_breaks(
            body,
            type_count,
            pos,
            fault,
        ),
{
    law_name_faults(body, pos);
    if let Ok((module, p)) = grammar::name_at(body, pos) {
        spelling::law_name_exactly(body, pos, p, module);
        law_name_faults(body, p);
        if let Ok((name, q)) = grammar::name_at(body, p) {
            spelling::law_name_exactly(body, p, q, name);
            law_import_desc_faults(body, type_count, q);
        }
    }
}

/// An export breaks: its name does, or its kind is missing or unknown, or its
/// index breaks.
pub open spec fn export_breaks(body: Seq<u8>, pos: int, fault: Fault<ParseErrorKind>) -> bool {
    ||| name_breaks(body, pos, fault)
    ||| exists|mid: int, name: Seq<char>| #[trigger]
        spelling::name_spelled(body, pos, mid, name) && if !(0 <= mid < body.len()) {
            byte_breaks(body, mid, fault)
        } else if body[mid] > 0x03 {
            fault == fault_at(mid, ParseErrorKind::InvalidExternKind(body[mid]))
        } else {
            u32_breaks(body, mid + 1, fault)
        }
}

/// Why an export is not read.
pub proof fn law_export_faults(body: Seq<u8>, pos: int)
    ensures
        grammar::export_at(body, pos) matches Err(fault) ==> export_breaks(body, pos, fault),
{
    law_name_faults(body, pos);
    if let Ok((name, mid)) = grammar::name_at(body, pos) {
        spelling::law_name_exactly(body, pos, mid, name);
    }
}

/// A section that is one vector breaks: the vector does, or it ends before the
/// section does.
pub open spec fn vec_section_breaks<T>(
    body: Seq<u8>,
    item: spec_fn(int, int, T) -> bool,
    breaks: spec_fn(int, Fault<ParseErrorKind>) -> bool,
    fault: Fault<ParseErrorKind>,
) -> bool {
    ||| vec_breaks(body, item, breaks, 0, fault)
    ||| exists|end: int, xs: Seq<T>| #[trigger]
        spelling::vec_spelled(body, item, 0, end, xs) && end != body.len() && fault == fault_at(
            end,
            ParseErrorKind::SectionSizeMismatch,
        )
}

proof fn lemma_vec_section_breaks<T>(
    body: Seq<u8>,
    read: spec_fn(int) -> Parsed<T>,
    item: spec_fn(int, int, T) -> bool,
    breaks: spec_fn(int, Fault<ParseErrorKind>) -> bool,
)
    requires
        spelling::reads_exactly(read, item),
        forall|p: int| (#[trigger] read(p)) matches Err(fault) ==> breaks(p, fault),
    ensures
        grammar::whole(body, grammar::vec_at(body, read, 0)) matches Err(fault)
            ==> vec_section_breaks(body, item, breaks, fault),
{
    lemma_vec_breaks(body, read, item, breaks, 0);
    if let Ok((xs, end)) = grammar::vec_at(body, read, 0) {
        spelling::lemma_vec_exactly(body, read, item, 0, end, xs);
    }
}

/// The type section breaks.
pub open spec fn type_section_breaks(body: Seq<u8>, fault: Fault<ParseErrorKind>) -> bool {
    vec_section_breaks(
        body,
        spelling::func_type_items(body),
        |p: int, f: Fault<ParseErrorKind>| func_type_breaks(body, p, f),
        fault,
    )
}

/// Why a type section does not decode.
pub proof fn law_type_section_faults(body: Seq<u8>)
    ensures
        grammar::type_section(body) matches Err(fault) ==> type_section_breaks(body, fault),
{
    let read = grammar::func_types(body);
    let breaks = |p: int, f: Fault<ParseErrorKind>| func_type_breaks(body, p, f);
    spelling::lemma_func_types_read(body);
    assert forall|p: int| (#[trigger] read(p)) matches Err(fault) ==> breaks(p, fault) by {
        law_func_type_faults(body, p);
    }
    lemma_vec_section_breaks(body, read, spelling::func_type_items(body), breaks);
}

/// The import section breaks.
pub open spec fn import_section_breaks(
    body: Seq<u8>,
    type_count: nat,
    fault: Fault<ParseErrorKind>,
) -> bool {
    vec_section_breaks(
        body,
        spelling::import_items(body, type_count),
        |p: int, f: Fault<ParseErrorKind>| import_breaks(body, type_count, p, f),
        fault,
    )
}

/// Why an import section does not decode.
pub proof fn law_import_section_faults(body: Seq<u8>, type_count: nat)
    ensures
        grammar::import_section(body, type_count) matches Err(fault) ==> import_section_breaks(
            body,
            type_count,
            fault,
        ),
{
    let read = grammar::imports(body, type_count);
    let breaks = |p: int, f: Fault<ParseErrorKind>| import_breaks(body, type_count, p, f);
    spelling::lemma_imports_read(body, type_count);
    assert forall|p: int| (#[trigger] read(p)) matches Err(fault) ==> breaks(p, fault) by {
        law_import_faults(body, type_count, p);
    }
    lemma_vec_section_breaks(body, read, spelling::import_items(body, type_count), breaks);
}

/// The function section breaks.
pub open spec fn function_section_breaks(
    body: Seq<u8>,
    type_count: nat,
    fault: Fault<ParseErrorKind>,
) -> bool {
    vec_section_breaks(
        body,
        spelling::func_items(body, type_count),
        |p: int, f: Fault<ParseErrorKind>| type_index_breaks(body, type_count, p, f),
        fault,
    )
}

/// Why a function section does not decode.
pub proof fn law_function_section_faults(body: Seq<u8>, type_count: nat)
    ensures
        grammar::function_section(body, type_count) matches Err(fault)
            ==> function_section_breaks(body, type_count, fault),
{
    let read = grammar::funcs(body, type_count);
    let breaks = |p: int, f: Fault<ParseErrorKind>| type_index_breaks(body, type_count, p, f);
    spelling::lemma_funcs_read(body, type_count);
    assert forall|p: int| (#[trigger] read(p)) matches Err(fault) ==> breaks(p, fault) by {
        law_type_index_faults(body, type_count, p);
    }
    lemma_vec_section_breaks(body, read, spelling::func_items(body, type_count), breaks);
}

/// The export section breaks.
pub open spec fn export_section_breaks(body: Seq<u8>, fault: Fault<ParseErrorKind>) -> bool {
    vec_section_breaks(
        body,
        spelling::export_items(body),
        |p: int, f: Fault<ParseErrorKind>| export_breaks(body, p, f),
        fault,
    )
}

/// Why an export section does not decode.
pub proof fn law_export_section_faults(body: Seq<u8>)
    ensures
        grammar::export_section(body) matches Err(fault) ==> export_section_breaks(body, fault),
{
    let read = grammar::exports(body);
    let breaks = |p: int, f: Fault<ParseErrorKind>| export_breaks(body, p, f);
    spelling::lemma_exports_read(body);
    assert forall|p: int| (#[trigger] read(p)) matches Err(fault) ==> breaks(p, fault) by {
        law_export_faults(body, p);
    }
    lemma_vec_section_breaks(body, read, spelling::export_items(body), breaks);
}

/// The start section breaks: its index does, or it ends before the section
/// does.
pub open spec fn start_section_breaks(body: Seq<u8>, fault: Fault<ParseErrorKind>) -> bool {
    ||| u32_breaks(body, 0, fault)
    ||| exists|end: int, index: u32| #[trigger]
        spelling::u32_spelled(body, 0, end, index) && end != body.len() && fault == fault_at(
            end,
            ParseErrorKind::SectionSizeMismatch,
        )
}

/// Why a start section does not decode.
pub proof fn law_start_section_faults(body: Seq<u8>)
    ensures
        grammar::start_section(body) matches Err(fault) ==> start_section_breaks(body, fault),
{
    if let Ok((index, end)) = grammar::u32_at(body, 0) {
        spelling::law_u32_exactly(body, 0, end, index);
    }
}

/// A section is cut off: its size breaks, or it claims more bytes than there
/// are.
pub open spec fn section_breaks(bytes: Seq<u8>, pos: int, fault: Fault<ParseErrorKind>) -> bool {
    ||| u32_breaks(bytes, pos + 1, fault)
    ||| exists|start: int, size: u32| #[trigger]
        spelling::u32_spelled(bytes, pos + 1, start, size) && start + size > bytes.len() && fault
            == fault_at(bytes.len() as int, ParseErrorKind::UnexpectedEof)
}

/// Why a section is not found.
pub proof fn law_section_faults(bytes: Seq<u8>, pos: int)
    ensures
        grammar::section_at(bytes, pos) matches Err(fault) ==> section_breaks(bytes, pos, fault),
{
    if let Ok((size, start)) = grammar::u32_at(bytes, pos + 1) {
        spelling::law_u32_exactly(bytes, pos + 1, start, size);
    }
}

} // verus!

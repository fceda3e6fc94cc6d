//! A binary for every module, and that parsing it gives the module back.

use crate::fault::Fault;
use crate::grammar;
use crate::grammar::{Parsed, Progress, Section};
use crate::leb;
use crate::module;
use crate::module::ModuleModel;
use crate::parse::{ParseErrorKind, FUNC_TYPE_TAG, MAGIC, MAX_KNOWN_SECTION_ID, VERSION};
use crate::parse_laws;
use crate::types::{
    ExportModel, ExternKind, Func, FuncTypeModel, ImportDesc, ImportModel, ValType,
};
use vstd::arithmetic::power2::*;
use vstd::prelude::*;

verus! {

/// Whether a count or a size can be written as a `u32`.
pub open spec fn countable(n: nat) -> bool {
    n <= u32::MAX
}

/// The encodings of items, one after the other.
pub open spec fn encode_items<T>(xs: Seq<T>, encode: spec_fn(T) -> Seq<u8>) -> Seq<u8>
    decreases xs.len(),
{
    if xs.len() == 0 {
        Seq::empty()
    } else {
        encode_items(xs.drop_last(), encode) + encode(xs.last())
    }
}

/// A vector: the count, then the items.
pub open spec fn encode_vec<T>(xs: Seq<T>, encode: spec_fn(T) -> Seq<u8>) -> Seq<u8> {
    leb::encode_unsigned(xs.len() as int) + encode_items(xs, encode)
}

/// A name: its length in bytes, then UTF-8.
pub open spec fn encode_name(name: Seq<char>) -> Seq<u8> {
    leb::encode_unsigned(vstd::utf8::encode_utf8(name).len() as int) + vstd::utf8::encode_utf8(
        name,
    )
}

/// A value type.
pub open spec fn encode_val_type(t: ValType) -> Seq<u8> {
    match t {
        ValType::I32 => seq![0x7Fu8],
        ValType::I64 => seq![0x7Eu8],
        ValType::F32 => seq![0x7Du8],
        ValType::F64 => seq![0x7Cu8],
    }
}

/// Value types.
pub open spec fn encode_val_types(types: Seq<ValType>) -> Seq<u8> {
    encode_vec(types, |t: ValType| encode_val_type(t))
}

/// A function type: its tag, the parameters, the results.
pub open spec fn encode_func_type(t: FuncTypeModel) -> Seq<u8> {
    seq![FUNC_TYPE_TAG] + (encode_val_types(t.params) + encode_val_types(t.results))
}

/// An import description. What a module does not keep of a table, a memory or
/// a global is filled in with the simplest choice.
pub open spec fn encode_import_desc(desc: ImportDesc) -> Seq<u8> {
    match desc {
        ImportDesc::Func(type_idx) => seq![0x00u8] + leb::encode_unsigned(type_idx as int),
        ImportDesc::Table => seq![0x01u8, 0x70u8, 0x00u8, 0x00u8],
        ImportDesc::Memory => seq![0x02u8, 0x00u8, 0x00u8],
        ImportDesc::Global => seq![0x03u8, 0x7Fu8, 0x00u8],
    }
}

/// An import: the module it comes from, its name, its description.
pub open spec fn encode_import(import: ImportModel) -> Seq<u8> {
    encode_name(import.module) + (encode_name(import.name) + encode_import_desc(import.desc))
}

/// A function section entry.
pub open spec fn encode_func(func: Func) -> Seq<u8> {
    leb::encode_unsigned(func.type_idx as int)
}

/// The kind of an export.
pub open spec fn encode_kind(kind: ExternKind) -> u8 {
    match kind {
        ExternKind::Func => 0x00,
        ExternKind::Table => 0x01,
        ExternKind::Memory => 0x02,
        ExternKind::Global => 0x03,
    }
}

/// An export: its name, its kind, its index.
pub open spec fn encode_export(export: ExportModel) -> Seq<u8> {
    encode_name(export.name) + (seq![encode_kind(export.kind)] + leb::encode_unsigned(
        export.index as int,
    ))
}

/// A section: its id, its size, its content.
pub open spec fn encode_section(id: u8, body: Seq<u8>) -> Seq<u8> {
    seq![id] + (leb::encode_unsigned(body.len() as int) + body)
}

/// Where `a + b` stands, `a` stands, and `b` after it.
proof fn lemma_stands_split(a: Seq<u8>, b: Seq<u8>, bytes: Seq<u8>, pos: int)
    requires
        leb::stands_at(a + b, bytes, pos),
    ensures
        leb::stands_at(a, bytes, pos),
        leb::stands_at(b, bytes, pos + a.len()),
{
    let whole = bytes.subrange(pos, pos + (a + b).len());
    assert(whole.subrange(0, a.len() as int) =~= bytes.subrange(pos, pos + a.len()));
    assert((a + b).subrange(0, a.len() as int) =~= a);
    assert(whole.subrange(a.len() as int, (a + b).len() as int) =~= bytes.subrange(
        pos + a.len(),
        pos + a.len() + b.len(),
    ));
    assert((a + b).subrange(a.len() as int, (a + b).len() as int) =~= b);
}

proof fn lemma_u32_reads_back(value: u32, bytes: Seq<u8>, pos: int)
    requires
        leb::stands_at(leb::encode_unsigned(value as int), bytes, pos),
    ensures
        grammar::u32_at(bytes, pos) == Ok::<(u32, int), Fault<ParseErrorKind>>(
            (value, pos + leb::encode_unsigned(value as int).len()),
        ),
{
    lemma2_to64();
    leb::law_unsigned_round_trip(bytes, pos, value as int, 32);
}

/// A name that was written is read back.
pub proof fn law_name_round_trip(name: Seq<char>, bytes: Seq<u8>, pos: int)
    requires
        countable(vstd::utf8::encode_utf8(name).len()),
        leb::stands_at(encode_name(name), bytes, pos),
    ensures
        grammar::name_at(bytes, pos) == Ok::<(Seq<char>, int), Fault<ParseErrorKind>>(
            (name, pos + encode_name(name).len()),
        ),
{
    let raw = vstd::utf8::encode_utf8(name);
    let size = leb::encode_unsigned(raw.len() as int);
    lemma_stands_split(size, raw, bytes, pos);
    lemma_u32_reads_back(raw.len() as u32, bytes, pos);
    vstd::utf8::encode_utf8_valid_utf8(name);
    vstd::utf8::encode_utf8_decode_utf8(name);
}

/// Whether `item` reads `x` wherever its encoding stands in `bytes`.
spec fn reads_back<T>(
    item: spec_fn(int) -> Parsed<T>,
    encode: spec_fn(T) -> Seq<u8>,
    x: T,
    bytes: Seq<u8>,
) -> bool {
    forall|p: int| #[trigger]
        leb::stands_at(encode(x), bytes, p) ==> item(p) == Ok::<(T, int), Fault<ParseErrorKind>>(
            (x, p + encode(x).len()),
        )
}

proof fn lemma_items_read_back<T>(
    item: spec_fn(int) -> Parsed<T>,
    encode: spec_fn(T) -> Seq<u8>,
    xs: Seq<T>,
    bytes: Seq<u8>,
    pos: int,
)
    requires
        forall|i: int|
            0 <= i < xs.len() ==> reads_back(item, encode, #[trigger] xs[i], bytes),
        leb::stands_at(encode_items(xs, encode), bytes, pos),
    ensures
        grammar::items(item, pos, xs.len()) == Ok::<(Seq<T>, int), Fault<ParseErrorKind>>(
            (xs, pos + encode_items(xs, encode).len()),
        ),
    decreases xs.len(),
{
    if xs.len() == 0 {
        assert(xs =~= Seq::empty());
    } else {
        let before = encode_items(xs.drop_last(), encode);
        lemma_stands_split(before, encode(xs.last()), bytes, pos);
        assert forall|i: int| 0 <= i < xs.drop_last().len() implies reads_back(
            item,
            encode,
            #[trigger] xs.drop_last()[i],
            bytes,
        ) by {
            assert(xs.drop_last()[i] == xs[i]);
        }
        lemma_items_read_back(item, encode, xs.drop_last(), bytes, pos);
        assert(reads_back(item, encode, xs[xs.len() - 1], bytes));
        assert(xs.drop_last().push(xs.last()) =~= xs);
    }
}

proof fn lemma_vec_reads_back<T>(
    item: spec_fn(int) -> Parsed<T>,
    encode: spec_fn(T) -> Seq<u8>,
    xs: Seq<T>,
    bytes: Seq<u8>,
    pos: int,
)
    requires
        countable(xs.len()),
        forall|i: int|
            0 <= i < xs.len() ==> reads_back(item, encode, #[trigger] xs[i], bytes),
        leb::stands_at(encode_vec(xs, encode), bytes, pos),
    ensures
        grammar::vec_at(bytes, item, pos) == Ok::<(Seq<T>, int), Fault<ParseErrorKind>>(
            (xs, pos + encode_vec(xs, encode).len()),
        ),
{
    let count = leb::encode_unsigned(xs.len() as int);
    lemma_stands_split(count, encode_items(xs, encode), bytes, pos);
    lemma_u32_reads_back(xs.len() as u32, bytes, pos);
    lemma_items_read_back(item, encode, xs, bytes, pos + count.len());
}

proof fn lemma_val_types_read_back(types: Seq<ValType>, bytes: Seq<u8>, pos: int)
    requires
        countable(types.len()),
        leb::stands_at(encode_val_types(types), bytes, pos),
    ensures
        grammar::vec_at(bytes, grammar::val_types(bytes), pos) == Ok::<
            (Seq<ValType>, int),
            Fault<ParseErrorKind>,
        >((types, pos + encode_val_types(types).len())),
{
    let encode = |t: ValType| encode_val_type(t);
    let item = grammar::val_types(bytes);
    assert forall|i: int| 0 <= i < types.len() implies reads_back(
        item,
        encode,
        #[trigger] types[i],
        bytes,
    ) by {
        let code = encode(types[i]);
        assert forall|p: int| #[trigger] leb::stands_at(code, bytes, p) implies item(p) == Ok::<
            (ValType, int),
            Fault<ParseErrorKind>,
        >((types[i], p + code.len())) by {
            assert(bytes.subrange(p, p + 1)[0] == code[0]);
        }
    }
    lemma_vec_reads_back(item, encode, types, bytes, pos);
}

/// A function type that was written is read back.
pub proof fn law_func_type_round_trip(t: FuncTypeModel, bytes: Seq<u8>, pos: int)
    requires
        countable(t.params.len()),
        countable(t.results.len()),
        leb::stands_at(encode_func_type(t), bytes, pos),
    ensures
        grammar::func_type_at(bytes, pos) == Ok::<(FuncTypeModel, int), Fault<ParseErrorKind>>(
            (t, pos + encode_func_type(t).len()),
        ),
{
    let params = encode_val_types(t.params);
    let results = encode_val_types(t.results);
    leb::lemma_stands_after(FUNC_TYPE_TAG, params + results, bytes, pos);
    lemma_stands_split(params, results, bytes, pos + 1);
    lemma_val_types_read_back(t.params, bytes, pos + 1);
    lemma_val_types_read_back(t.results, bytes, pos + 1 + params.len());
}

proof fn lemma_import_desc_reads_back(
    desc: ImportDesc,
    type_count: nat,
    bytes: Seq<u8>,
    pos: int,
)
    requires
        desc matches ImportDesc::Func(type_idx) ==> type_idx < type_count,
        leb::stands_at(encode_import_desc(desc), bytes, pos),
    ensures
        grammar::import_desc_at(bytes, type_count, pos) == Ok::<
            (ImportDesc, int),
            Fault<ParseErrorKind>,
        >((desc, pos + encode_import_desc(desc).len())),
{
    let code = encode_import_desc(desc);
    lemma2_to64();
    assert forall|i: int| 0 <= i < code.len() implies bytes[pos + i] == code[i] by {
        assert(bytes.subrange(pos, pos + code.len())[i] == code[i]);
    }
    assert(bytes[pos + 0] == code[0]);
    match desc {
        ImportDesc::Func(type_idx) => {
            leb::lemma_stands_after(0x00, leb::encode_unsigned(type_idx as int), bytes, pos);
            lemma_u32_reads_back(type_idx, bytes, pos + 1);
        },
        ImportDesc::Table => {
            assert(bytes[pos + 1] == code[1] && bytes[pos + 2] == code[2] && bytes[pos + 3]
                == code[3]);
        },
        _ => {
            assert(bytes[pos + 1] == code[1] && bytes[pos + 2] == code[2]);
        },
    }
}

/// An import that was written is read back.
pub proof fn law_import_round_trip(
    import: ImportModel,
    type_count: nat,
    bytes: Seq<u8>,
    pos: int,
)
    requires
        countable(vstd::utf8::encode_utf8(import.module).len()),
        countable(vstd::utf8::encode_utf8(import.name).len()),
        import.desc matches ImportDesc::Func(type_idx) ==> type_idx < type_count,
        leb::stands_at(encode_import(import), bytes, pos),
    ensures
        grammar::import_at(bytes, type_count, pos) == Ok::<
            (ImportModel, int),
            Fault<ParseErrorKind>,
        >((import, pos + encode_import(import).len())),
{
    let module = encode_name(import.module);
    let name = encode_name(import.name);
    let desc = encode_import_desc(import.desc);
    lemma_stands_split(module, name + desc, bytes, pos);
    lemma_stands_split(name, desc, bytes, pos + module.len());
    law_name_round_trip(import.module, bytes, pos);
    law_name_round_trip(import.name, bytes, pos + module.len());
    lemma_import_desc_reads_back(
        import.desc,
        type_count,
        bytes,
        pos + module.len() + name.len(),
    );
}

/// An export that was written is read back.
pub proof fn law_export_round_trip(export: ExportModel, bytes: Seq<u8>, pos: int)
    requires
        countable(vstd::utf8::encode_utf8(export.name).len()),
        leb::stands_at(encode_export(export), bytes, pos),
    ensures
        grammar::export_at(bytes, pos) == Ok::<(ExportModel, int), Fault<ParseErrorKind>>(
            (export, pos + encode_export(export).len()),
        ),
{
    let name = encode_name(export.name);
    let kind = encode_kind(export.kind);
    let index = leb::encode_unsigned(export.index as int);
    lemma_stands_split(name, seq![kind] + index, bytes, pos);
    law_name_round_trip(export.name, bytes, pos);
    leb::lemma_stands_after(kind, index, bytes, pos + name.len());
    lemma_u32_reads_back(export.index, bytes, pos + name.len() + 1);
}

/// Limits: a flag, a minimum, and a maximum if there is one.
pub open spec fn encode_limits(min: u32, max: Option<u32>) -> Seq<u8> {
    match max {
        None => seq![0x00u8] + leb::encode_unsigned(min as int),
        Some(max) => seq![0x01u8] + (leb::encode_unsigned(min as int) + leb::encode_unsigned(
            max as int,
        )),
    }
}

/// Limits that were written are accepted, whatever the minimum and the
/// maximum, and end where they were written to.
pub proof fn law_limits_round_trip(min: u32, max: Option<u32>, bytes: Seq<u8>, pos: int)
    requires
        leb::stands_at(encode_limits(min, max), bytes, pos),
    ensures
        grammar::limits_at(bytes, pos) == Ok::<((), int), Fault<ParseErrorKind>>(
            ((), pos + encode_limits(min, max).len()),
        ),
{
    let first = leb::encode_unsigned(min as int);
    match max {
        None => {
            leb::lemma_stands_after(0x00, first, bytes, pos);
            lemma_u32_reads_back(min, bytes, pos + 1);
        },
        Some(max) => {
            let second = leb::encode_unsigned(max as int);
            leb::lemma_stands_after(0x01, first + second, bytes, pos);
            lemma_stands_split(first, second, bytes, pos + 1);
            lemma_u32_reads_back(min, bytes, pos + 1);
            lemma_u32_reads_back(max, bytes, pos + 1 + first.len());
        },
    }
}

/// A memory import is one whatever its limits.
pub proof fn law_memory_import_with_any_limits(
    min: u32,
    max: Option<u32>,
    type_count: nat,
    bytes: Seq<u8>,
    pos: int,
)
    requires
        leb::stands_at(seq![0x02u8] + encode_limits(min, max), bytes, pos),
    ensures
        grammar::import_desc_at(bytes, type_count, pos) == Ok::<
            (ImportDesc, int),
            Fault<ParseErrorKind>,
        >((ImportDesc::Memory, pos + 1 + encode_limits(min, max).len())),
{
    leb::lemma_stands_after(0x02, encode_limits(min, max), bytes, pos);
    law_limits_round_trip(min, max, bytes, pos + 1);
}

/// A table import is one whatever its reference type byte and its limits.
pub proof fn law_table_import_with_any_limits(
    reference_type: u8,
    min: u32,
    max: Option<u32>,
    type_count: nat,
    bytes: Seq<u8>,
    pos: int,
)
    requires
        leb::stands_at(
            seq![0x01u8] + (seq![reference_type] + encode_limits(min, max)),
            bytes,
            pos,
        ),
    ensures
        grammar::import_desc_at(bytes, type_count, pos) == Ok::<
            (ImportDesc, int),
            Fault<ParseErrorKind>,
        >((ImportDesc::Table, pos + 2 + encode_limits(min, max).len())),
{
    let limits = encode_limits(min, max);
    leb::lemma_stands_after(0x01, seq![reference_type] + limits, bytes, pos);
    leb::lemma_stands_after(reference_type, limits, bytes, pos + 1);
    law_limits_round_trip(min, max, bytes, pos + 2);
}

/// A global import is one whatever its value type and its mutability byte.
pub proof fn law_global_import_with_any_flag(
    t: ValType,
    mutability: u8,
    type_count: nat,
    bytes: Seq<u8>,
    pos: int,
)
    requires
        leb::stands_at(seq![0x03u8] + (encode_val_type(t) + seq![mutability]), bytes, pos),
    ensures
        grammar::import_desc_at(bytes, type_count, pos) == Ok::<
            (ImportDesc, int),
            Fault<ParseErrorKind>,
        >((ImportDesc::Global, pos + 3)),
{
    let code = encode_val_type(t);
    leb::lemma_stands_after(0x03, code + seq![mutability], bytes, pos);
    lemma_stands_split(code, seq![mutability], bytes, pos + 1);
    assert(bytes.subrange(pos + 1, pos + 2)[0] == code[0]);
}

/// The content of the type section.
pub open spec fn encode_types(types: Seq<FuncTypeModel>) -> Seq<u8> {
    encode_vec(types, |t: FuncTypeModel| encode_func_type(t))
}

/// The content of the import section.
pub open spec fn encode_imports(imports: Seq<ImportModel>) -> Seq<u8> {
    encode_vec(imports, |i: ImportModel| encode_import(i))
}

/// The content of the function section.
pub open spec fn encode_funcs(funcs: Seq<Func>) -> Seq<u8> {
    encode_vec(funcs, |f: Func| encode_func(f))
}

/// The content of the export section.
pub open spec fn encode_exports(exports: Seq<ExportModel>) -> Seq<u8> {
    encode_vec(exports, |e: ExportModel| encode_export(e))
}

/// The content of a module's section of a known, non-custom id; nothing where
/// the module has no such section.
pub open spec fn content(m: ModuleModel, id: u8) -> Option<Seq<u8>> {
    if id == 1 {
        Some(encode_types(m.types))
    } else if id == 2 {
        Some(encode_imports(m.imports))
    } else if id == 3 {
        Some(encode_funcs(m.funcs))
    } else if id == 7 {
        Some(encode_exports(m.exports))
    } else if id == 8 {
        match m.start {
            Some(index) => Some(leb::encode_unsigned(index as int)),
            None => None,
        }
    } else if m.skipped_sections.contains(id) {
        Some(Seq::empty())
    } else {
        None
    }
}

/// A module's known, non-custom sections from `id` on.
pub open spec fn encode_known(m: ModuleModel, id: int) -> Seq<u8>
    decreases MAX_KNOWN_SECTION_ID + 1 - id,
{
    if id > MAX_KNOWN_SECTION_ID {
        Seq::empty()
    } else {
        match content(m, id as u8) {
            Some(body) => encode_section(id as u8, body) + encode_known(m, id + 1),
            None => encode_known(m, id + 1),
        }
    }
}

/// Custom sections of these names, with nothing after the name.
pub open spec fn encode_customs(names: Seq<Seq<char>>) -> Seq<u8> {
    encode_items(names, |name: Seq<char>| encode_section(0, encode_name(name)))
}

/// A binary of a module: the header, the custom sections, then the others.
pub open spec fn encode_module(m: ModuleModel) -> Seq<u8> {
    (MAGIC@ + VERSION@) + (encode_customs(m.custom_sections) + encode_known(m, 1))
}

/// Whether a module is one that a binary can hold: its type indices are in
/// range, the ids of its skipped sections are those of such sections and
/// increase, and the size of every section can be written as a `u32`.
pub open spec fn encodable(m: ModuleModel) -> bool {
    &&& m.well_formed()
    &&& forall|i: int|
        0 <= i < m.skipped_sections.len() ==> parse_laws::is_skipped(
            #[trigger] m.skipped_sections[i],
        )
    &&& forall|i: int, j: int|
        0 <= i < j < m.skipped_sections.len() ==> #[trigger] m.skipped_sections[i]
            < #[trigger] m.skipped_sections[j]
    &&& forall|i: int|
        0 <= i < m.custom_sections.len() ==> countable(
            encode_name(#[trigger] m.custom_sections[i]).len(),
        )
    &&& forall|id: u8|
        1 <= id <= MAX_KNOWN_SECTION_ID ==> ((#[trigger] content(m, id)) matches Some(body)
            ==> countable(body.len()))
}

/// A vector of items that take at least a byte each is at least as long as
/// their number, and as any of them.
proof fn lemma_items_len<T>(xs: Seq<T>, encode: spec_fn(T) -> Seq<u8>)
    requires
        forall|x: T| (#[trigger] encode(x)).len() >= 1,
    ensures
        xs.len() <= encode_items(xs, encode).len(),
        forall|i: int|
            0 <= i < xs.len() ==> encode(#[trigger] xs[i]).len() <= encode_items(
                xs,
                encode,
            ).len(),
    decreases xs.len(),
{
    if xs.len() > 0 {
        let before = xs.drop_last();
        lemma_items_len(before, encode);
        assert forall|i: int| 0 <= i < xs.len() implies encode(#[trigger] xs[i]).len()
            <= encode_items(xs, encode).len() by {
            if i < before.len() {
                assert(before[i] == xs[i]);
            }
        }
    }
}

/// What comes first stands at the start.
pub proof fn lemma_stands_at_start(part: Seq<u8>, extra: Seq<u8>)
    ensures
        leb::stands_at(part, part + extra, 0),
{
    assert((part + extra).subrange(0, part.len() as int) =~= part);
}

/// The fault of a section that goes on after its content.
pub open spec fn size_mismatch(content: Seq<u8>) -> Fault<ParseErrorKind> {
    Fault { offset: content.len() as int, kind: ParseErrorKind::SectionSizeMismatch }
}

proof fn lemma_types_read_back(types: Seq<FuncTypeModel>, body: Seq<u8>)
    requires
        countable(types.len()),
        forall|i: int|
            0 <= i < types.len() ==> countable((#[trigger] types[i]).params.len()) && countable(
                types[i].results.len(),
            ),
        leb::stands_at(encode_types(types), body, 0),
    ensures
        grammar::vec_at(body, grammar::func_types(body), 0) == Ok::<
            (Seq<FuncTypeModel>, int),
            Fault<ParseErrorKind>,
        >((types, encode_types(types).len() as int)),
{
    let encode = |x: FuncTypeModel| encode_func_type(x);
    let item = grammar::func_types(body);
    assert forall|i: int| 0 <= i < types.len() implies reads_back(
        item,
        encode,
        #[trigger] types[i],
        body,
    ) by {
        let x = types[i];
        assert forall|p: int| #[trigger] leb::stands_at(encode(x), body, p) implies item(p)
            == Ok::<(FuncTypeModel, int), Fault<ParseErrorKind>>((x, p + encode(x).len())) by {
            law_func_type_round_trip(x, body, p);
        }
    }
    lemma_vec_reads_back(item, encode, types, body, 0);
}

/// A type section that was written is read back, in order, whatever the number
/// of parameters and results; bytes after its last type are rejected where they
/// begin.
pub proof fn law_type_section_round_trip(types: Seq<FuncTypeModel>, extra: Seq<u8>)
    requires
        countable(types.len()),
        forall|i: int|
            0 <= i < types.len() ==> countable((#[trigger] types[i]).params.len()) && countable(
                types[i].results.len(),
            ),
    ensures
        grammar::type_section(encode_types(types)) == Ok::<
            Seq<FuncTypeModel>,
            Fault<ParseErrorKind>,
        >(types),
        extra.len() > 0 ==> grammar::type_section(encode_types(types) + extra) == Err::<
            Seq<FuncTypeModel>,
            Fault<ParseErrorKind>,
        >(size_mismatch(encode_types(types))),
{
    let body = encode_types(types);
    lemma_stands_at_start(body, Seq::empty());
    lemma_stands_at_start(body, extra);
    assert(body + Seq::empty() =~= body);
    lemma_types_read_back(types, body);
    lemma_types_read_back(types, body + extra);
}

proof fn lemma_imports_read_back(imports: Seq<ImportModel>, type_count: nat, body: Seq<u8>)
    requires
        countable(imports.len()),
        forall|i: int|
            0 <= i < imports.len() ==> countable(
                vstd::utf8::encode_utf8((#[trigger] imports[i]).module).len(),
            ) && countable(vstd::utf8::encode_utf8(imports[i].name).len()),
        forall|i: int|
            0 <= i < imports.len() ==> (module::func_import(#[trigger] imports[i]) matches Some(
                type_idx,
            ) ==> type_idx < type_count),
        leb::stands_at(encode_imports(imports), body, 0),
    ensures
        grammar::vec_at(body, grammar::imports(body, type_count), 0) == Ok::<
            (Seq<ImportModel>, int),
            Fault<ParseErrorKind>,
        >((imports, encode_imports(imports).len() as int)),
{
    let encode = |x: ImportModel| encode_import(x);
    let item = grammar::imports(body, type_count);
    assert forall|i: int| 0 <= i < imports.len() implies reads_back(
        item,
        encode,
        #[trigger] imports[i],
        body,
    ) by {
        let x = imports[i];
        assert forall|p: int| #[trigger] leb::stands_at(encode(x), body, p) implies item(p)
            == Ok::<(ImportModel, int), Fault<ParseErrorKind>>((x, p + encode(x).len())) by {
            law_import_round_trip(x, type_count, body, p);
        }
    }
    lemma_vec_reads_back(item, encode, imports, body, 0);
}

/// An import section whose type indices are in range and that was written is
/// read back, in order; bytes after its last import are rejected where they
/// begin.
pub proof fn law_import_section_round_trip(imports: Seq<ImportModel>, type_count: nat, extra: Seq<u8>)
    requires
        countable(imports.len()),
        forall|i: int|
            0 <= i < imports.len() ==> countable(
                vstd::utf8::encode_utf8((#[trigger] imports[i]).module).len(),
            ) && countable(vstd::utf8::encode_utf8(imports[i].name).len()),
        forall|i: int|
            0 <= i < imports.len() ==> (module::func_import(#[trigger] imports[i]) matches Some(
                type_idx,
            ) ==> type_idx < type_count),
    ensures
        grammar::import_section(encode_imports(imports), type_count) == Ok::<
            Seq<ImportModel>,
            Fault<ParseErrorKind>,
        >(imports),
        extra.len() > 0 ==> grammar::import_section(encode_imports(imports) + extra, type_count) == Err::<
            Seq<ImportModel>,
            Fault<ParseErrorKind>,
        >(size_mismatch(encode_imports(imports))),
{
    let body = encode_imports(imports);
    lemma_stands_at_start(body, Seq::empty());
    lemma_stands_at_start(body, extra);
    assert(body + Seq::empty() =~= body);
    lemma_imports_read_back(imports, type_count, body);
    lemma_imports_read_back(imports, type_count, body + extra);
}

proof fn lemma_funcs_read_back(funcs: Seq<Func>, type_count: nat, body: Seq<u8>)
    requires
        countable(funcs.len()),
        forall|i: int| 0 <= i < funcs.len() ==> (#[trigger] funcs[i]).type_idx < type_count,
        leb::stands_at(encode_funcs(funcs), body, 0),
    ensures
        grammar::vec_at(body, grammar::funcs(body, type_count), 0) == Ok::<
            (Seq<Func>, int),
            Fault<ParseErrorKind>,
        >((funcs, encode_funcs(funcs).len() as int)),
{
    let encode = |x: Func| encode_func(x);
    let item = grammar::funcs(body, type_count);
    assert forall|i: int| 0 <= i < funcs.len() implies reads_back(
        item,
        encode,
        #[trigger] funcs[i],
        body,
    ) by {
        let x = funcs[i];
        assert forall|p: int| #[trigger] leb::stands_at(encode(x), body, p) implies item(p)
            == Ok::<(Func, int), Fault<ParseErrorKind>>((x, p + encode(x).len())) by {
            lemma_u32_reads_back(x.type_idx, body, p);
        }
    }
    lemma_vec_reads_back(item, encode, funcs, body, 0);
}

/// A function section whose type indices are in range and that was written is
/// read back, in order; bytes after its last entry are rejected where they
/// begin.
pub proof fn law_function_section_round_trip(funcs: Seq<Func>, type_count: nat, extra: Seq<u8>)
    requires
        countable(funcs.len()),
        forall|i: int| 0 <= i < funcs.len() ==> (#[trigger] funcs[i]).type_idx < type_count,
    ensures
        grammar::function_section(encode_funcs(funcs), type_count) == Ok::<
            Seq<Func>,
            Fault<ParseErrorKind>,
        >(funcs),
        extra.len() > 0 ==> grammar::function_section(encode_funcs(funcs) + extra, type_count) == Err::<
            Seq<Func>,
            Fault<ParseErrorKind>,
        >(size_mismatch(encode_funcs(funcs))),
{
    let body = encode_funcs(funcs);
    lemma_stands_at_start(body, Seq::empty());
    lemma_stands_at_start(body, extra);
    assert(body + Seq::empty() =~= body);
    lemma_funcs_read_back(funcs, type_count, body);
    lemma_funcs_read_back(funcs, type_count, body + extra);
}

proof fn lemma_exports_read_back(exports: Seq<ExportModel>, body: Seq<u8>)
    requires
        countable(exports.len()),
        forall|i: int|
            0 <= i < exports.len() ==> countable(
                vstd::utf8::encode_utf8((#[trigger] exports[i]).name).len(),
            ),
        leb::stands_at(encode_exports(exports), body, 0),
    ensures
        grammar::vec_at(body, grammar::exports(body), 0) == Ok::<
            (Seq<ExportModel>, int),
            Fault<ParseErrorKind>,
        >((exports, encode_exports(exports).len() as int)),
{
    let encode = |x: ExportModel| encode_export(x);
    let item = grammar::exports(body);
    assert forall|i: int| 0 <= i < exports.len() implies reads_back(
        item,
        encode,
        #[trigger] exports[i],
        body,
    ) by {
        let x = exports[i];
        assert forall|p: int| #[trigger] leb::stands_at(encode(x), body, p) implies item(p)
            == Ok::<(ExportModel, int), Fault<ParseErrorKind>>((x, p + encode(x).len())) by {
            law_export_round_trip(x, body, p);
        }
    }
    lemma_vec_reads_back(item, encode, exports, body, 0);
}

/// An export section that was written is read back, in order and with
/// duplicates kept, whatever its indices; bytes after its last export are
/// rejected where they begin.
pub proof fn law_export_section_round_trip(exports: Seq<ExportModel>, extra: Seq<u8>)
    requires
        countable(exports.len()),
        forall|i: int|
            0 <= i < exports.len() ==> countable(
                vstd::utf8::encode_utf8((#[trigger] exports[i]).name).len(),
            ),
    ensures
        grammar::export_section(encode_exports(exports)) == Ok::<
            Seq<ExportModel>,
            Fault<ParseErrorKind>,
        >(exports),
        extra.len() > 0 ==> grammar::export_section(encode_exports(exports) + extra) == Err::<
            Seq<ExportModel>,
            Fault<ParseErrorKind>,
        >(size_mismatch(encode_exports(exports))),
{
    let body = encode_exports(exports);
    lemma_stands_at_start(body, Seq::empty());
    lemma_stands_at_start(body, extra);
    assert(body + Seq::empty() =~= body);
    lemma_exports_read_back(exports, body);
    lemma_exports_read_back(exports, body + extra);
}

/// A start section that was written is read back; bytes after its index are
/// rejected where they begin.
pub proof fn law_start_section_round_trip(index: u32, extra: Seq<u8>)
    ensures
        grammar::start_section(leb::encode_unsigned(index as int)) == Ok::<
            u32,
            Fault<ParseErrorKind>,
        >(index),
        extra.len() > 0 ==> grammar::start_section(leb::encode_unsigned(index as int) + extra)
            == Err::<u32, Fault<ParseErrorKind>>(
            size_mismatch(leb::encode_unsigned(index as int)),
        ),
{
    let body = leb::encode_unsigned(index as int);
    lemma_stands_at_start(body, Seq::empty());
    lemma_stands_at_start(body, extra);
    assert(body + Seq::empty() =~= body);
    lemma_u32_reads_back(index, body, 0);
    lemma_u32_reads_back(index, body + extra, 0);
}

/// In a type section whose size can be written as a `u32`, so can every count.
proof fn lemma_types_countable(types: Seq<FuncTypeModel>)
    requires
        countable(encode_types(types).len()),
    ensures
        countable(types.len()),
        forall|i: int|
            0 <= i < types.len() ==> countable((#[trigger] types[i]).params.len()) && countable(
                types[i].results.len(),
            ),
{
    let encode = |t: FuncTypeModel| encode_func_type(t);
    let val_type = |v: ValType| encode_val_type(v);
    lemma_items_len(types, encode);
    assert forall|i: int| 0 <= i < types.len() implies countable(
        (#[trigger] types[i]).params.len(),
    ) && countable(types[i].results.len()) by {
        lemma_items_len(types[i].params, val_type);
        lemma_items_len(types[i].results, val_type);
        assert(encode(types[i]).len() <= encode_types(types).len());
    }
}

/// In an import section whose size can be written as a `u32`, so can every
/// count.
proof fn lemma_imports_countable(imports: Seq<ImportModel>)
    requires
        countable(encode_imports(imports).len()),
    ensures
        countable(imports.len()),
        forall|i: int|
            0 <= i < imports.len() ==> countable(
                vstd::utf8::encode_utf8((#[trigger] imports[i]).module).len(),
            ) && countable(vstd::utf8::encode_utf8(imports[i].name).len()),
{
    let encode = |i: ImportModel| encode_import(i);
    lemma_items_len(imports, encode);
    assert forall|i: int| 0 <= i < imports.len() implies countable(
        vstd::utf8::encode_utf8((#[trigger] imports[i]).module).len(),
    ) && countable(vstd::utf8::encode_utf8(imports[i].name).len()) by {
        assert(encode(imports[i]).len() <= encode_imports(imports).len());
    }
}

/// In an export section whose size can be written as a `u32`, so can every
/// count.
proof fn lemma_exports_countable(exports: Seq<ExportModel>)
    requires
        countable(encode_exports(exports).len()),
    ensures
        countable(exports.len()),
        forall|i: int|
            0 <= i < exports.len() ==> countable(
                vstd::utf8::encode_utf8((#[trigger] exports[i]).name).len(),
            ),
{
    let encode = |e: ExportModel| encode_export(e);
    lemma_items_len(exports, encode);
    assert forall|i: int| 0 <= i < exports.len() implies countable(
        vstd::utf8::encode_utf8((#[trigger] exports[i]).name).len(),
    ) by {
        assert(encode(exports[i]).len() <= encode_exports(exports).len());
    }
}

/// A section that was written is found as it was written.
pub proof fn lemma_section_reads_back(id: u8, body: Seq<u8>)
    requires
        countable(body.len()),
    ensures
        ({
            let bytes = encode_section(id, body);
            let start = 1 + leb::encode_unsigned(body.len() as int).len();
            &&& grammar::section_at(bytes, 0) == Ok::<Section, Fault<ParseErrorKind>>(
                Section { id, start: start as int, end: bytes.len() as int },
            )
            &&& bytes.subrange(start as int, bytes.len() as int) == body
        }),
{
    let bytes = encode_section(id, body);
    let size = leb::encode_unsigned(body.len() as int);
    assert(bytes.subrange(0, bytes.len() as int) =~= bytes);
    leb::lemma_stands_after(id, size + body, bytes, 0);
    lemma_stands_split(size, body, bytes, 1);
    lemma_u32_reads_back(body.len() as u32, bytes, 1);
}

/// Custom sections that were written are read before whatever follows them.
#[verifier::rlimit(30)]
proof fn lemma_customs_read_back(names: Seq<Seq<char>>, rest: Seq<u8>, done: Progress)
    requires
        forall|i: int|
            0 <= i < names.len() ==> countable(encode_name(#[trigger] names[i]).len()),
    ensures
        ({
            let more = Progress {
                m: ModuleModel { custom_sections: done.m.custom_sections + names, ..done.m },
                last: done.last,
            };
            grammar::sections_from(rest, 0, more) is Ok ==> grammar::sections_from(
                encode_customs(names) + rest,
                0,
                done,
            ) == grammar::sections_from(rest, 0, more)
        }),
    decreases names.len(),
{
    let more = Progress {
        m: ModuleModel { custom_sections: done.m.custom_sections + names, ..done.m },
        last: done.last,
    };
    if names.len() == 0 {
        assert(encode_customs(names) + rest =~= rest);
        assert(more =~= done);
    } else if grammar::sections_from(rest, 0, more) is Ok {
        let before = names.drop_last();
        let name = names.last();
        let custom = encode_section(0, encode_name(name));
        assert forall|i: int| 0 <= i < before.len() implies countable(
            encode_name(#[trigger] before[i]).len(),
        ) by {
            assert(before[i] == names[i]);
        }
        assert(countable(encode_name(names[names.len() - 1]).len()));
        let earlier = Progress {
            m: ModuleModel { custom_sections: done.m.custom_sections + before, ..done.m },
            last: done.last,
        };
        let body = encode_name(name);
        lemma_section_reads_back(0, body);
        assert(body.subrange(0, body.len() as int) =~= body);
        law_name_round_trip(name, body, 0);
        assert(parse_laws::is_custom_section(custom, name));
        parse_laws::lemma_custom_section_adds_its_name(custom, name, earlier);
        assert((done.m.custom_sections + before).push(name) =~= done.m.custom_sections + names);
        parse_laws::lemma_section_then_rest(custom, rest, earlier);
        lemma_customs_read_back(before, custom + rest, done);
        assert(encode_customs(names) + rest =~= encode_customs(before) + (custom + rest));
    }
}

/// What a module has once the sections below `id` have been read, `k` of the
/// skipped ones among them.
spec fn known_below(m: ModuleModel, id: int, k: int) -> ModuleModel {
    ModuleModel {
        types: if id > 1 {
            m.types
        } else {
            Seq::empty()
        },
        imports: if id > 2 {
            m.imports
        } else {
            Seq::empty()
        },
        funcs: if id > 3 {
            m.funcs
        } else {
            Seq::empty()
        },
        exports: if id > 7 {
            m.exports
        } else {
            Seq::empty()
        },
        start: if id > 8 {
            m.start
        } else {
            None
        },
        custom_sections: m.custom_sections,
        skipped_sections: m.skipped_sections.take(k),
    }
}

proof fn lemma_content_reads_back(m: ModuleModel, id: u8, k: int)
    requires
        encodable(m),
        1 <= id <= MAX_KNOWN_SECTION_ID,
        content(m, id) is Some,
        0 <= k <= m.skipped_sections.len(),
        parse_laws::is_skipped(id) ==> k < m.skipped_sections.len() && m.skipped_sections[k] == id,
    ensures
        grammar::with_content(known_below(m, id as int, k), id, content(m, id)->Some_0) == Ok::<
            ModuleModel,
            Fault<ParseErrorKind>,
        >(
            known_below(
                m,
                id + 1,
                if parse_laws::is_skipped(id) {
                    k + 1
                } else {
                    k
                },
            ),
        ),
{
    if id == 1 {
        lemma_types_countable(m.types);
        law_type_section_round_trip(m.types, Seq::empty());
    } else if id == 2 {
        lemma_imports_countable(m.imports);
        law_import_section_round_trip(m.imports, m.types.len(), Seq::empty());
    } else if id == 3 {
        lemma_items_len(m.funcs, |f: Func| encode_func(f));
        law_function_section_round_trip(m.funcs, m.types.len(), Seq::empty());
    } else if id == 7 {
        lemma_exports_countable(m.exports);
        law_export_section_round_trip(m.exports, Seq::empty());
    } else if id == 8 {
        law_start_section_round_trip(m.start->Some_0, Seq::empty());
    } else {
        assert(m.skipped_sections.take(k).push(id) =~= m.skipped_sections.take(k + 1));
    }
}

proof fn lemma_known_read_back(m: ModuleModel, id: int, k: int, last: u8)
    requires
        encodable(m),
        1 <= id <= MAX_KNOWN_SECTION_ID + 1,
        last < id,
        0 <= k <= m.skipped_sections.len(),
        forall|i: int| 0 <= i < k ==> #[trigger] m.skipped_sections[i] < id,
        forall|i: int| k <= i < m.skipped_sections.len() ==> #[trigger] m.skipped_sections[i] >= id,
    ensures
        grammar::sections_from(
            encode_known(m, id),
            0,
            Progress { m: known_below(m, id, k), last },
        ) matches Ok(all) && all.m == m,
    decreases MAX_KNOWN_SECTION_ID + 1 - id,
{
    let done = Progress { m: known_below(m, id, k), last };
    if id > MAX_KNOWN_SECTION_ID {
        if k < m.skipped_sections.len() {
            assert(parse_laws::is_skipped(m.skipped_sections[k]));
        }
        assert(m.skipped_sections.take(k) =~= m.skipped_sections);
    } else {
        let this = id as u8;
        if m.skipped_sections.contains(this) {
            let i = choose|i: int|
                0 <= i < m.skipped_sections.len() && m.skipped_sections[i] == this;
            assert(parse_laws::is_skipped(m.skipped_sections[i]));
            assert(m.skipped_sections[k] == this);
        }
        let next = if m.skipped_sections.contains(this) {
            k + 1
        } else {
            k
        };
        assert forall|i: int| next <= i < m.skipped_sections.len() implies
            #[trigger] m.skipped_sections[i] >= id + 1 by {
            if m.skipped_sections[i] == this {
                assert(m.skipped_sections.contains(this));
                assert(m.skipped_sections[k] < m.skipped_sections[i]);
            }
        }
        match content(m, this) {
            Some(body) => {
                let section = encode_section(this, body);
                lemma_section_reads_back(this, body);
                lemma_content_reads_back(m, this, k);
                let s = grammar::section_at(section, 0)->Ok_0;
                let more = Progress { m: known_below(m, id + 1, next), last: this };
                assert(grammar::advance(done, section, 0, s) == Ok::<
                    Progress,
                    Fault<ParseErrorKind>,
                >(more));
                assert(grammar::sections_from(section, s.end, more) == Ok::<
                    Progress,
                    Fault<ParseErrorKind>,
                >(more));
                assert(grammar::sections_from(section, 0, done) == Ok::<
                    Progress,
                    Fault<ParseErrorKind>,
                >(more));
                lemma_known_read_back(m, id + 1, next, this);
                parse_laws::lemma_section_then_rest(section, encode_known(m, id + 1), done);
            },
            None => {
                assert(known_below(m, id + 1, next) == known_below(m, id, k));
                lemma_known_read_back(m, id + 1, next, last);
            },
        }
    }
}

/// Every module that a binary can hold has a binary that parses to it.
pub proof fn law_module_round_trip(m: ModuleModel)
    requires
        encodable(m),
    ensures
        grammar::module(encode_module(m)) == Ok::<ModuleModel, Fault<ParseErrorKind>>(m),
{
    let header = MAGIC@ + VERSION@;
    let known = encode_known(m, 1);
    let sections = encode_customs(m.custom_sections) + known;
    let bytes = encode_module(m);
    assert(header.len() == 8);
    assert(bytes.take(8) =~= header);
    parse_laws::law_header_is_the_first_eight_bytes(bytes);
    let start = Progress { m: known_below(m, 1, 0), last: 0 };
    assert forall|i: int| 0 <= i < m.skipped_sections.len() implies
        #[trigger] m.skipped_sections[i] >= 1 by {
        assert(parse_laws::is_skipped(m.skipped_sections[i]));
    }
    lemma_known_read_back(m, 1, 0, 0);
    let named = Progress {
        m: ModuleModel {
            custom_sections: Progress::none().m.custom_sections + m.custom_sections,
            ..Progress::none().m
        },
        last: 0,
    };
    assert(named =~= start);
    lemma_customs_read_back(m.custom_sections, known, Progress::none());
    assert(bytes.skip(8) =~= sections.skip(0));
    parse_laws::lemma_sections_local(sections, 0, bytes, 8, Progress::none());
}

} // verus!

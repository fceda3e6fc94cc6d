//! The binary format as a relation: which bytes spell what, and that each
//! reader accepts exactly those.
//!
//! A predicate named `.._spelled` says that the bytes from one position to
//! another spell a value. It picks no way to read them: where something is made
//! of parts, it says that the parts stand one after the other.

use crate::fault::Fault;
use crate::grammar;
use crate::grammar::{Parsed, Section};
use crate::leb;
use crate::parse::ParseErrorKind;
use crate::types::{
    ExportModel, ExternKind, Func, FuncTypeModel, ImportDesc, ImportModel, ValType,
};
use vstd::arithmetic::power2::*;
use vstd::prelude::*;

verus! {

/// Whether the byte at `from` is `byte`.
pub open spec fn byte_spelled(body: Seq<u8>, from: int, byte: u8) -> bool {
    0 <= from < body.len() && body[from] == byte
}

/// A `u32`.
pub open spec fn u32_spelled(body: Seq<u8>, from: int, to: int, value: u32) -> bool {
    leb::unsigned_spelled(body, from, to, 32, value as int)
}

/// A `u32` is read exactly where bytes spell one.
pub proof fn law_u32_exactly(body: Seq<u8>, pos: int, next: int, value: u32)
    ensures
        grammar::u32_at(body, pos) == Ok::<(u32, int), Fault<ParseErrorKind>>((value, next))
            <==> u32_spelled(body, pos, next, value),
{
    lemma2_to64();
    leb::law_unsigned_exactly(body, pos, next, 32, value as int);
    if 0 <= pos {
        leb::law_unsigned_fits(body, pos, 32);
    }
}

/// Limits: the flag `0x00` and a minimum, or the flag `0x01`, a minimum and a
/// maximum. The numbers may be any at all.
pub open spec fn limits_spelled(body: Seq<u8>, from: int, to: int) -> bool {
    ||| byte_spelled(body, from, 0x00) && exists|min: u32| #[trigger]
        u32_spelled(body, from + 1, to, min)
    ||| byte_spelled(body, from, 0x01) && exists|min: u32, mid: int, max: u32|
        #[trigger] u32_spelled(body, from + 1, mid, min) && #[trigger] u32_spelled(
            body,
            mid,
            to,
            max,
        )
}

/// Limits are accepted exactly where bytes spell them, and end with them.
pub proof fn law_limits_exactly(body: Seq<u8>, pos: int, next: int)
    ensures
        grammar::limits_at(body, pos) == Ok::<((), int), Fault<ParseErrorKind>>(((), next))
            <==> limits_spelled(body, pos, next),
{
    if let Ok((min, mid)) = grammar::u32_at(body, pos + 1) {
        law_u32_exactly(body, pos + 1, mid, min);
        if let Ok((max, end)) = grammar::u32_at(body, mid) {
            law_u32_exactly(body, mid, end, max);
        }
    }
    if limits_spelled(body, pos, next) {
        if body[pos] == 0x00 {
            let min = choose|min: u32| #[trigger] u32_spelled(body, pos + 1, next, min);
            law_u32_exactly(body, pos + 1, next, min);
        } else {
            let (min, mid, max) = choose|min: u32, mid: int, max: u32|
                #[trigger] u32_spelled(body, pos + 1, mid, min) && #[trigger] u32_spelled(
                    body,
                    mid,
                    next,
                    max,
                );
            law_u32_exactly(body, pos + 1, mid, min);
            law_u32_exactly(body, mid, next, max);
        }
    }
}

/// A value type.
pub open spec fn val_type_spelled(body: Seq<u8>, from: int, to: int, t: ValType) -> bool {
    &&& to == from + 1
    &&& byte_spelled(
        body,
        from,
        match t {
            ValType::I32 => 0x7F,
            ValType::I64 => 0x7E,
            ValType::F32 => 0x7D,
            ValType::F64 => 0x7C,
        },
    )
}

/// A value type is read exactly where its byte stands.
pub proof fn law_val_type_exactly(body: Seq<u8>, pos: int, next: int, t: ValType)
    ensures
        grammar::val_type_at(body, pos) == Ok::<(ValType, int), Fault<ParseErrorKind>>((t, next))
            <==> val_type_spelled(body, pos, next, t),
{
}

/// A name: its length in bytes up to `mid`, then the name in UTF-8.
pub open spec fn name_parts(body: Seq<u8>, from: int, mid: int, to: int, name: Seq<char>) -> bool {
    &&& mid <= to <= body.len()
    &&& leb::unsigned_spelled(body, from, mid, 32, to - mid)
    &&& body.subrange(mid, to) == vstd::utf8::encode_utf8(name)
}

/// A name.
pub open spec fn name_spelled(body: Seq<u8>, from: int, to: int, name: Seq<char>) -> bool {
    exists|mid: int| #[trigger] name_parts(body, from, mid, to, name)
}

/// A name is read exactly where bytes spell it, however long it is.
pub proof fn law_name_exactly(body: Seq<u8>, pos: int, next: int, name: Seq<char>)
    ensures
        grammar::name_at(body, pos) == Ok::<(Seq<char>, int), Fault<ParseErrorKind>>((name, next))
            <==> name_spelled(body, pos, next, name),
{
    lemma2_to64();
    if let Ok((len, start)) = grammar::u32_at(body, pos) {
        law_u32_exactly(body, pos, start, len);
        if let Ok((found, end)) = grammar::name_at(body, pos) {
            vstd::utf8::decode_utf8_encode_utf8(body.subrange(start, end));
            assert(name_parts(body, pos, start, end, found));
        }
    }
    if name_spelled(body, pos, next, name) {
        let mid = choose|mid: int| #[trigger] name_parts(body, pos, mid, next, name);
        law_u32_exactly(body, pos, mid, (next - mid) as u32);
        vstd::utf8::encode_utf8_valid_utf8(name);
        vstd::utf8::encode_utf8_decode_utf8(name);
    }
}

/// Items one after the other: the `i`th from `positions[i]` to
/// `positions[i + 1]`.
pub open spec fn items_spelled<T>(
    item: spec_fn(int, int, T) -> bool,
    from: int,
    to: int,
    xs: Seq<T>,
    positions: Seq<int>,
) -> bool {
    &&& positions.len() == xs.len() + 1
    &&& positions[0] == from
    &&& positions.last() == to
    &&& forall|i: int|
        0 <= i < xs.len() ==> item(positions[i], positions[i + 1], #[trigger] xs[i])
}

/// Whether a reader of items accepts exactly what `item` says.
pub open spec fn reads_exactly<T>(read: spec_fn(int) -> Parsed<T>, item: spec_fn(int, int, T) -> bool) -> bool {
    forall|p: int, q: int, x: T|
        #![trigger item(p, q, x)]
        read(p) == Ok::<(T, int), Fault<ParseErrorKind>>((x, q)) <==> item(p, q, x)
}

/// Items that are read stand one after the other.
pub proof fn lemma_items_spelled<T>(
    read: spec_fn(int) -> Parsed<T>,
    item: spec_fn(int, int, T) -> bool,
    pos: int,
    n: nat,
) -> (positions: Seq<int>)
    requires
        reads_exactly(read, item),
    ensures
        grammar::items(read, pos, n) matches Ok((xs, next)) ==> xs.len() == n && items_spelled(
            item,
            pos,
            next,
            xs,
            positions,
        ),
    decreases n,
{
    if n == 0 {
        seq![pos]
    } else {
        let before = lemma_items_spelled(read, item, pos, (n - 1) as nat);
        if let Ok((xs, next)) = grammar::items(read, pos, n) {
            let (ys, p) = grammar::items(read, pos, (n - 1) as nat)->Ok_0;
            let positions = before.push(next);
            assert(item(p, next, xs.last()));
            assert forall|i: int| 0 <= i < xs.len() implies item(
                positions[i],
                positions[i + 1],
                #[trigger] xs[i],
            ) by {
                if i < ys.len() {
                    assert(item(before[i], before[i + 1], ys[i]));
                }
            }
            positions
        } else {
            before
        }
    }
}

proof fn lemma_spelled_items<T>(
    read: spec_fn(int) -> Parsed<T>,
    item: spec_fn(int, int, T) -> bool,
    pos: int,
    next: int,
    xs: Seq<T>,
    positions: Seq<int>,
)
    requires
        reads_exactly(read, item),
        items_spelled(item, pos, next, xs, positions),
    ensures
        grammar::items(read, pos, xs.len()) == Ok::<(Seq<T>, int), Fault<ParseErrorKind>>(
            (xs, next),
        ),
    decreases xs.len(),
{
    if xs.len() == 0 {
        assert(xs =~= Seq::empty());
    } else {
        let ys = xs.drop_last();
        let before = positions.drop_last();
        assert forall|i: int| 0 <= i < ys.len() implies item(
            before[i],
            before[i + 1],
            #[trigger] ys[i],
        ) by {
            assert(item(positions[i], positions[i + 1], xs[i]));
        }
        lemma_spelled_items(read, item, pos, before.last(), ys, before);
        let last = xs.len() - 1;
        assert(item(positions[last], positions[last + 1], xs[last]));
        assert(ys.push(xs.last()) =~= xs);
    }
}

/// A vector: the number of items up to `positions[0]`, then the items.
pub open spec fn vec_parts<T>(
    body: Seq<u8>,
    item: spec_fn(int, int, T) -> bool,
    from: int,
    to: int,
    xs: Seq<T>,
    positions: Seq<int>,
) -> bool {
    &&& leb::unsigned_spelled(body, from, positions[0], 32, xs.len() as int)
    &&& items_spelled(item, positions[0], to, xs, positions)
}

/// A vector.
pub open spec fn vec_spelled<T>(
    body: Seq<u8>,
    item: spec_fn(int, int, T) -> bool,
    from: int,
    to: int,
    xs: Seq<T>,
) -> bool {
    exists|positions: Seq<int>| #[trigger] vec_parts(body, item, from, to, xs, positions)
}

/// A vector is read exactly where bytes spell it, if its items are.
pub proof fn lemma_vec_exactly<T>(
    body: Seq<u8>,
    read: spec_fn(int) -> Parsed<T>,
    item: spec_fn(int, int, T) -> bool,
    pos: int,
    next: int,
    xs: Seq<T>,
)
    requires
        reads_exactly(read, item),
    ensures
        grammar::vec_at(body, read, pos) == Ok::<(Seq<T>, int), Fault<ParseErrorKind>>((xs, next))
            <==> vec_spelled(body, item, pos, next, xs),
{
    lemma2_to64();
    if let Ok((n, first)) = grammar::u32_at(body, pos) {
        law_u32_exactly(body, pos, first, n);
        let positions = lemma_items_spelled(read, item, first, n as nat);
        if grammar::vec_at(body, read, pos) == Ok::<(Seq<T>, int), Fault<ParseErrorKind>>(
            (xs, next),
        ) {
            assert(vec_parts(body, item, pos, next, xs, positions));
        }
    }
    if vec_spelled(body, item, pos, next, xs) {
        let positions = choose|positions: Seq<int>| #[trigger]
            vec_parts(body, item, pos, next, xs, positions);
        law_u32_exactly(body, pos, positions[0], xs.len() as u32);
        lemma_spelled_items(read, item, positions[0], next, xs, positions);
    }
}

/// The value types of a body.
pub open spec fn val_type_items(body: Seq<u8>) -> spec_fn(int, int, ValType) -> bool {
    |from: int, to: int, t: ValType| val_type_spelled(body, from, to, t)
}

/// Any number of value types.
pub open spec fn val_types_spelled(body: Seq<u8>, from: int, to: int, types: Seq<ValType>) -> bool {
    vec_spelled(body, val_type_items(body), from, to, types)
}

/// Each of them is read exactly where bytes spell it.
pub proof fn lemma_val_types_read(body: Seq<u8>)
    ensures
        reads_exactly(grammar::val_types(body), val_type_items(body)),
{
    let read = grammar::val_types(body);
    let item = val_type_items(body);
    assert forall|p: int, q: int, x: ValType| #![trigger item(p, q, x)]
        read(p) == Ok::<(ValType, int), Fault<ParseErrorKind>>((x, q)) <==> item(p, q, x) by {
        law_val_type_exactly(body, p, q, x);
    }
}

/// Value types are read exactly where bytes spell them.
pub proof fn lemma_val_types_exactly(body: Seq<u8>, pos: int, next: int, types: Seq<ValType>)
    ensures
        grammar::vec_at(body, grammar::val_types(body), pos) == Ok::<
            (Seq<ValType>, int),
            Fault<ParseErrorKind>,
        >((types, next)) <==> val_types_spelled(body, pos, next, types),
{
    lemma_val_types_read(body);
    lemma_vec_exactly(
        body,
        grammar::val_types(body),
        val_type_items(body),
        pos,
        next,
        types,
    );
}

/// A function type: the byte `0x60`, the parameters up to `mid`, the results.
pub open spec fn func_type_parts(
    body: Seq<u8>,
    from: int,
    mid: int,
    to: int,
    t: FuncTypeModel,
) -> bool {
    &&& byte_spelled(body, from, 0x60)
    &&& val_types_spelled(body, from + 1, mid, t.params)
    &&& val_types_spelled(body, mid, to, t.results)
}

/// A function type.
pub open spec fn func_type_spelled(body: Seq<u8>, from: int, to: int, t: FuncTypeModel) -> bool {
    exists|mid: int| #[trigger] func_type_parts(body, from, mid, to, t)
}

/// A function type is read exactly where bytes spell it, whatever the number
/// of its parameters and results.
pub proof fn law_func_type_exactly(body: Seq<u8>, pos: int, next: int, t: FuncTypeModel)
    ensures
        grammar::func_type_at(body, pos) == Ok::<(FuncTypeModel, int), Fault<ParseErrorKind>>(
            (t, next),
        ) <==> func_type_spelled(body, pos, next, t),
{
    let read = grammar::val_types(body);
    if grammar::func_type_at(body, pos) == Ok::<(FuncTypeModel, int), Fault<ParseErrorKind>>(
        (t, next),
    ) {
        let (params, mid) = grammar::vec_at(body, read, pos + 1)->Ok_0;
        lemma_val_types_exactly(body, pos + 1, mid, t.params);
        lemma_val_types_exactly(body, mid, next, t.results);
        assert(func_type_parts(body, pos, mid, next, t));
    }
    if func_type_spelled(body, pos, next, t) {
        let mid = choose|mid: int| #[trigger] func_type_parts(body, pos, mid, next, t);
        lemma_val_types_exactly(body, pos + 1, mid, t.params);
        lemma_val_types_exactly(body, mid, next, t.results);
    }
}

/// An import description: a kind byte; then the index of one of the
/// `type_count` types for a function, any byte and limits for a table, limits
/// for a memory, any value type and any byte for a global.
pub open spec fn import_desc_spelled(
    body: Seq<u8>,
    type_count: nat,
    from: int,
    to: int,
    desc: ImportDesc,
) -> bool {
    match desc {
        ImportDesc::Func(type_idx) => {
            &&& byte_spelled(body, from, 0x00)
            &&& u32_spelled(body, from + 1, to, type_idx)
            &&& type_idx < type_count
        },
        ImportDesc::Table => {
            &&& byte_spelled(body, from, 0x01)
            &&& limits_spelled(body, from + 2, to)
        },
        ImportDesc::Memory => {
            &&& byte_spelled(body, from, 0x02)
            &&& limits_spelled(body, from + 1, to)
        },
        ImportDesc::Global => {
            &&& byte_spelled(body, from, 0x03)
            &&& exists|t: ValType| #[trigger] val_type_spelled(body, from + 1, from + 2, t)
            &&& to == from + 3 <= body.len()
        },
    }
}

/// An import description is read exactly where bytes spell it.
pub proof fn law_import_desc_exactly(
    body: Seq<u8>,
    type_count: nat,
    pos: int,
    next: int,
    desc: ImportDesc,
)
    ensures
        grammar::import_desc_at(body, type_count, pos) == Ok::<
            (ImportDesc, int),
            Fault<ParseErrorKind>,
        >((desc, next)) <==> import_desc_spelled(body, type_count, pos, next, desc),
{
    match desc {
        ImportDesc::Func(type_idx) => {
            law_u32_exactly(body, pos + 1, next, type_idx);
        },
        ImportDesc::Table => {
            law_limits_exactly(body, pos + 2, next);
        },
        ImportDesc::Memory => {
            law_limits_exactly(body, pos + 1, next);
        },
        ImportDesc::Global => {
            if let Ok((t, q)) = grammar::val_type_at(body, pos + 1) {
                law_val_type_exactly(body, pos + 1, q, t);
            }
            if import_desc_spelled(body, type_count, pos, next, desc) {
                let t = choose|t: ValType| #[trigger]
                    val_type_spelled(body, pos + 1, pos + 2, t);
                law_val_type_exactly(body, pos + 1, pos + 2, t);
            }
        },
    }
}

/// An import: the module it comes from up to `p`, its name up to `q`, its
/// description.
pub open spec fn import_parts(
    body: Seq<u8>,
    type_count: nat,
    from: int,
    p: int,
    q: int,
    to: int,
    import: ImportModel,
) -> bool {
    &&& name_spelled(body, from, p, import.module)
    &&& name_spelled(body, p, q, import.name)
    &&& import_desc_spelled(body, type_count, q, to, import.desc)
}

/// An import.
pub open spec fn import_spelled(
    body: Seq<u8>,
    type_count: nat,
    from: int,
    to: int,
    import: ImportModel,
) -> bool {
    exists|p: int, q: int| #[trigger] import_parts(body, type_count, from, p, q, to, import)
}

/// An import is read exactly where bytes spell it.
pub proof fn law_import_exactly(
    body: Seq<u8>,
    type_count: nat,
    pos: int,
    next: int,
    import: ImportModel,
)
    ensures
        grammar::import_at(body, type_count, pos) == Ok::<
            (ImportModel, int),
            Fault<ParseErrorKind>,
        >((import, next)) <==> import_spelled(body, type_count, pos, next, import),
{
    if grammar::import_at(body, type_count, pos) == Ok::<
        (ImportModel, int),
        Fault<ParseErrorKind>,
    >((import, next)) {
        let (module, p) = grammar::name_at(body, pos)->Ok_0;
        let (name, q) = grammar::name_at(body, p)->Ok_0;
        law_name_exactly(body, pos, p, module);
        law_name_exactly(body, p, q, name);
        law_import_desc_exactly(body, type_count, q, next, import.desc);
        assert(import_parts(body, type_count, pos, p, q, next, import));
    }
    if import_spelled(body, type_count, pos, next, import) {
        let (p, q) = choose|p: int, q: int| #[trigger]
            import_parts(body, type_count, pos, p, q, next, import);
        law_name_exactly(body, pos, p, import.module);
        law_name_exactly(body, p, q, import.name);
        law_import_desc_exactly(body, type_count, q, next, import.desc);
    }
}

/// A function section entry: the index of one of the `type_count` types.
pub open spec fn func_spelled(
    body: Seq<u8>,
    type_count: nat,
    from: int,
    to: int,
    func: Func,
) -> bool {
    u32_spelled(body, from, to, func.type_idx) && func.type_idx < type_count
}

/// An export: its name up to `mid`, a kind byte, any index at all.
pub open spec fn export_parts(
    body: Seq<u8>,
    from: int,
    mid: int,
    to: int,
    export: ExportModel,
) -> bool {
    &&& name_spelled(body, from, mid, export.name)
    &&& byte_spelled(
        body,
        mid,
        match export.kind {
            ExternKind::Func => 0x00,
            ExternKind::Table => 0x01,
            ExternKind::Memory => 0x02,
            ExternKind::Global => 0x03,
        },
    )
    &&& u32_spelled(body, mid + 1, to, export.index)
}

/// An export.
pub open spec fn export_spelled(body: Seq<u8>, from: int, to: int, export: ExportModel) -> bool {
    exists|mid: int| #[trigger] export_parts(body, from, mid, to, export)
}

/// An export is read exactly where bytes spell it.
pub proof fn law_export_exactly(body: Seq<u8>, pos: int, next: int, export: ExportModel)
    ensures
        grammar::export_at(body, pos) == Ok::<(ExportModel, int), Fault<ParseErrorKind>>(
            (export, next),
        ) <==> export_spelled(body, pos, next, export),
{
    if grammar::export_at(body, pos) == Ok::<(ExportModel, int), Fault<ParseErrorKind>>(
        (export, next),
    ) {
        let (name, mid) = grammar::name_at(body, pos)->Ok_0;
        law_name_exactly(body, pos, mid, name);
        law_u32_exactly(body, mid + 1, next, export.index);
        assert(export_parts(body, pos, mid, next, export));
    }
    if export_spelled(body, pos, next, export) {
        let mid = choose|mid: int| #[trigger] export_parts(body, pos, mid, next, export);
        law_name_exactly(body, pos, mid, export.name);
        law_u32_exactly(body, mid + 1, next, export.index);
    }
}

/// The function types of a body.
pub open spec fn func_type_items(body: Seq<u8>) -> spec_fn(int, int, FuncTypeModel) -> bool {
    |from: int, to: int, t: FuncTypeModel| func_type_spelled(body, from, to, t)
}

/// The imports of a body.
pub open spec fn import_items(body: Seq<u8>, type_count: nat) -> spec_fn(int, int, ImportModel) -> bool {
    |from: int, to: int, import: ImportModel| import_spelled(body, type_count, from, to, import)
}

/// The function section entries of a body.
pub open spec fn func_items(body: Seq<u8>, type_count: nat) -> spec_fn(int, int, Func) -> bool {
    |from: int, to: int, func: Func| func_spelled(body, type_count, from, to, func)
}

/// The exports of a body.
pub open spec fn export_items(body: Seq<u8>) -> spec_fn(int, int, ExportModel) -> bool {
    |from: int, to: int, export: ExportModel| export_spelled(body, from, to, export)
}

/// Each of them is read exactly where bytes spell it.
pub proof fn lemma_func_types_read(body: Seq<u8>)
    ensures
        reads_exactly(grammar::func_types(body), func_type_items(body)),
{
    let read = grammar::func_types(body);
    let item = func_type_items(body);
    assert forall|p: int, q: int, x: FuncTypeModel| #![trigger item(p, q, x)]
        read(p) == Ok::<(FuncTypeModel, int), Fault<ParseErrorKind>>((x, q)) <==> item(p, q, x) by {
        law_func_type_exactly(body, p, q, x);
    }
}

/// Each of them is read exactly where bytes spell it.
pub proof fn lemma_imports_read(body: Seq<u8>, type_count: nat)
    ensures
        reads_exactly(grammar::imports(body, type_count), import_items(body, type_count)),
{
    let read = grammar::imports(body, type_count);
    let item = import_items(body, type_count);
    assert forall|p: int, q: int, x: ImportModel| #![trigger item(p, q, x)]
        read(p) == Ok::<(ImportModel, int), Fault<ParseErrorKind>>((x, q)) <==> item(p, q, x) by {
        law_import_exactly(body, type_count, p, q, x);
    }
}

/// Each of them is read exactly where bytes spell it.
pub proof fn lemma_funcs_read(body: Seq<u8>, type_count: nat)
    ensures
        reads_exactly(grammar::funcs(body, type_count), func_items(body, type_count)),
{
    let read = grammar::funcs(body, type_count);
    let item = func_items(body, type_count);
    assert forall|p: int, q: int, x: Func| #![trigger item(p, q, x)]
        read(p) == Ok::<(Func, int), Fault<ParseErrorKind>>((x, q)) <==> item(p, q, x) by {
        law_u32_exactly(body, p, q, x.type_idx);
    }
}

/// Each of them is read exactly where bytes spell it.
pub proof fn lemma_exports_read(body: Seq<u8>)
    ensures
        reads_exactly(grammar::exports(body), export_items(body)),
{
    let read = grammar::exports(body);
    let item = export_items(body);
    assert forall|p: int, q: int, x: ExportModel| #![trigger item(p, q, x)]
        read(p) == Ok::<(ExportModel, int), Fault<ParseErrorKind>>((x, q)) <==> item(p, q, x) by {
        law_export_exactly(body, p, q, x);
    }
}

/// A type section decodes exactly if all of its bytes spell function types.
pub proof fn law_type_section_exactly(body: Seq<u8>, types: Seq<FuncTypeModel>)
    ensures
        grammar::type_section(body) == Ok::<Seq<FuncTypeModel>, Fault<ParseErrorKind>>(types)
            <==> vec_spelled(body, func_type_items(body), 0, body.len() as int, types),
{
    lemma_func_types_read(body);
    lemma_vec_exactly(
        body,
        grammar::func_types(body),
        func_type_items(body),
        0,
        body.len() as int,
        types,
    );
}

/// An import section decodes exactly if all of its bytes spell imports.
pub proof fn law_import_section_exactly(
    body: Seq<u8>,
    type_count: nat,
    imports: Seq<ImportModel>,
)
    ensures
        grammar::import_section(body, type_count) == Ok::<
            Seq<ImportModel>,
            Fault<ParseErrorKind>,
        >(imports) <==> vec_spelled(
            body,
            import_items(body, type_count),
            0,
            body.len() as int,
            imports,
        ),
{
    lemma_imports_read(body, type_count);
    lemma_vec_exactly(
        body,
        grammar::imports(body, type_count),
        import_items(body, type_count),
        0,
        body.len() as int,
        imports,
    );
}

/// A function section decodes exactly if all of its bytes spell type indices
/// in range.
pub proof fn law_function_section_exactly(body: Seq<u8>, type_count: nat, funcs: Seq<Func>)
    ensures
        grammar::function_section(body, type_count) == Ok::<Seq<Func>, Fault<ParseErrorKind>>(
            funcs,
        ) <==> vec_spelled(body, func_items(body, type_count), 0, body.len() as int, funcs),
{
    lemma_funcs_read(body, type_count);
    lemma_vec_exactly(
        body,
        grammar::funcs(body, type_count),
        func_items(body, type_count),
        0,
        body.len() as int,
        funcs,
    );
}

/// An export section decodes exactly if all of its bytes spell exports.
pub proof fn law_export_section_exactly(body: Seq<u8>, exports: Seq<ExportModel>)
    ensures
        grammar::export_section(body) == Ok::<Seq<ExportModel>, Fault<ParseErrorKind>>(exports)
            <==> vec_spelled(body, export_items(body), 0, body.len() as int, exports),
{
    lemma_exports_read(body);
    lemma_vec_exactly(
        body,
        grammar::exports(body),
        export_items(body),
        0,
        body.len() as int,
        exports,
    );
}

/// A start section decodes exactly if all of its bytes spell an index.
pub proof fn law_start_section_exactly(body: Seq<u8>, index: u32)
    ensures
        grammar::start_section(body) == Ok::<u32, Fault<ParseErrorKind>>(index) <==> u32_spelled(
            body,
            0,
            body.len() as int,
            index,
        ),
{
    law_u32_exactly(body, 0, body.len() as int, index);
}

/// A section: its id, then its size up to `start`, then its content, whatever
/// its length.
pub open spec fn section_spelled(bytes: Seq<u8>, from: int, section: Section) -> bool {
    &&& byte_spelled(bytes, from, section.id)
    &&& section.start <= section.end <= bytes.len()
    &&& leb::unsigned_spelled(bytes, from + 1, section.start, 32, section.end - section.start)
}

/// A section is found exactly where bytes spell it.
pub proof fn law_section_exactly(bytes: Seq<u8>, pos: int, section: Section)
    requires
        0 <= pos < bytes.len(),
    ensures
        grammar::section_at(bytes, pos) == Ok::<Section, Fault<ParseErrorKind>>(section)
            <==> section_spelled(bytes, pos, section),
{
    lemma2_to64();
    if let Ok((size, start)) = grammar::u32_at(bytes, pos + 1) {
        law_u32_exactly(bytes, pos + 1, start, size);
    }
    if section_spelled(bytes, pos, section) {
        law_u32_exactly(
            bytes,
            pos + 1,
            section.start,
            (section.end - section.start) as u32,
        );
    }
}

} // verus!

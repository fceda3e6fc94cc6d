//! The binary format as mathematics: what stands at each position of a
//! module's bytes, and which fault is reported where nothing acceptable does.
//!
//! A function named `.._at` says what is decoded at a position of a section's
//! body, and offsets of faults count from the start of that body. `module`
//! puts the sections together, with offsets into the whole binary.

use crate::fault::Fault;
use crate::leb;
use crate::module::ModuleModel;
use crate::parse::{ParseErrorKind, FUNC_TYPE_TAG, MAGIC, MAX_KNOWN_SECTION_ID, VERSION};
use crate::types::{
    ExportModel, ExternKind, Func, FuncTypeModel, ImportDesc, ImportModel, ValType,
};
use vstd::prelude::*;

verus! {

/// What decoding something at a position comes to: it, and the position after
/// it, or the fault.
pub type Parsed<T> = Result<(T, int), Fault<ParseErrorKind>>;

/// What decoding something that has no position after it comes to.
pub type Outcome<T> = Result<T, Fault<ParseErrorKind>>;

/// The LEB128 `u32` at `pos`. A failure is placed at the byte that broke it.
pub open spec fn u32_at(body: Seq<u8>, pos: int) -> Parsed<u32> {
    match leb::unsigned_at(body, pos, 32) {
        Ok((value, next)) => Ok((value as u32, next)),
        Err((error, at)) => Err(Fault { offset: at, kind: ParseErrorKind::Leb(error) }),
    }
}

/// The byte at `pos`.
pub open spec fn byte_at(body: Seq<u8>, pos: int) -> Parsed<u8> {
    if 0 <= pos < body.len() {
        Ok((body[pos], pos + 1))
    } else {
        Err(Fault { offset: pos, kind: ParseErrorKind::UnexpectedEof })
    }
}

/// The `limits` at `pos`: a flag byte, then a minimum, and a maximum if the
/// flag says so. The numbers are not kept.
pub open spec fn limits_at(body: Seq<u8>, pos: int) -> Parsed<()> {
    match byte_at(body, pos) {
        Ok((flag, p)) => if flag > 0x01 {
            Err(Fault { offset: pos, kind: ParseErrorKind::InvalidLimits })
        } else {
            match u32_at(body, p) {
                Ok((_, q)) => if flag == 0x00 {
                    Ok(((), q))
                } else {
                    match u32_at(body, q) {
                        Ok((_, r)) => Ok(((), r)),
                        Err(fault) => Err(fault),
                    }
                },
                Err(fault) => Err(fault),
            }
        },
        Err(fault) => Err(fault),
    }
}

/// `n` items, one after the other from `pos` on, where `item` says what stands
/// at each position.
pub open spec fn items<T>(item: spec_fn(int) -> Parsed<T>, pos: int, n: nat) -> Parsed<Seq<T>>
    decreases n,
{
    if n == 0 {
        Ok((Seq::empty(), pos))
    } else {
        match items(item, pos, (n - 1) as nat) {
            Ok((before, p)) => match item(p) {
                Ok((last, q)) => Ok((before.push(last), q)),
                Err(fault) => Err(fault),
            },
            Err(fault) => Err(fault),
        }
    }
}

/// A fault among the first items is the fault of any longer run of them.
pub proof fn lemma_items_fault_stays<T>(
    item: spec_fn(int) -> Parsed<T>,
    pos: int,
    n: nat,
    longer: nat,
)
    requires
        n <= longer,
    ensures
        items(item, pos, n) matches Err(fault) ==> items(item, pos, longer) == Err::<
            (Seq<T>, int),
            Fault<ParseErrorKind>,
        >(fault),
    decreases longer,
{
    if n < longer {
        lemma_items_fault_stays(item, pos, n, (longer - 1) as nat);
    }
}

/// The vector at `pos`: a count, then that many items.
pub open spec fn vec_at<T>(body: Seq<u8>, item: spec_fn(int) -> Parsed<T>, pos: int) -> Parsed<
    Seq<T>,
> {
    match u32_at(body, pos) {
        Ok((n, p)) => items(item, p, n as nat),
        Err(fault) => Err(fault),
    }
}

/// The value type at `pos`.
pub open spec fn val_type_at(body: Seq<u8>, pos: int) -> Parsed<ValType> {
    match byte_at(body, pos) {
        Ok((byte, p)) => match ValType::encoded_by(byte) {
            Some(t) => Ok((t, p)),
            None => Err(Fault { offset: pos, kind: ParseErrorKind::InvalidValType(byte) }),
        },
        Err(fault) => Err(fault),
    }
}

/// The value types of a body, by position.
pub open spec fn val_types(body: Seq<u8>) -> spec_fn(int) -> Parsed<ValType> {
    |pos: int| val_type_at(body, pos)
}

/// The function type at `pos`: its tag, the parameters, the results.
pub open spec fn func_type_at(body: Seq<u8>, pos: int) -> Parsed<FuncTypeModel> {
    match byte_at(body, pos) {
        Ok((tag, p)) => if tag != FUNC_TYPE_TAG {
            Err(Fault { offset: pos, kind: ParseErrorKind::InvalidFuncType(tag) })
        } else {
            match vec_at(body, val_types(body), p) {
                Ok((params, q)) => match vec_at(body, val_types(body), q) {
                    Ok((results, r)) => Ok((FuncTypeModel { params, results }, r)),
                    Err(fault) => Err(fault),
                },
                Err(fault) => Err(fault),
            }
        },
        Err(fault) => Err(fault),
    }
}

/// The function types of a body, by position.
pub open spec fn func_types(body: Seq<u8>) -> spec_fn(int) -> Parsed<FuncTypeModel> {
    |pos: int| func_type_at(body, pos)
}

/// The name at `pos`: its length in bytes, then UTF-8.
pub open spec fn name_at(body: Seq<u8>, pos: int) -> Parsed<Seq<char>> {
    match u32_at(body, pos) {
        Ok((len, start)) => if start + len > body.len() {
            Err(Fault { offset: body.len() as int, kind: ParseErrorKind::UnexpectedEof })
        } else {
            let raw = body.subrange(start, start + len);
            if vstd::utf8::valid_utf8(raw) {
                Ok((vstd::utf8::decode_utf8(raw), start + len))
            } else {
                Err(Fault { offset: start, kind: ParseErrorKind::InvalidUtf8 })
            }
        },
        Err(fault) => Err(fault),
    }
}

/// The type index at `pos`, which must name one of `type_count` types.
pub open spec fn type_index_at(body: Seq<u8>, type_count: nat, pos: int) -> Parsed<u32> {
    match u32_at(body, pos) {
        Ok((index, p)) => if index < type_count {
            Ok((index, p))
        } else {
            Err(Fault { offset: pos, kind: ParseErrorKind::TypeIndexOutOfRange(index) })
        },
        Err(fault) => Err(fault),
    }
}

/// The import description at `pos`: a kind byte, then a type index for a
/// function, a reference type and limits for a table, limits for a memory, a
/// value type and a mutability flag for a global. Only the type index is kept.
pub open spec fn import_desc_at(body: Seq<u8>, type_count: nat, pos: int) -> Parsed<ImportDesc> {
    match byte_at(body, pos) {
        Ok((kind, p)) => match ExternKind::encoded_by(kind) {
            Some(ExternKind::Func) => match type_index_at(body, type_count, p) {
                Ok((index, q)) => Ok((ImportDesc::Func(index), q)),
                Err(fault) => Err(fault),
            },
            Some(ExternKind::Table) => match byte_at(body, p) {
                Ok((_, q)) => match limits_at(body, q) {
                    Ok((_, r)) => Ok((ImportDesc::Table, r)),
                    Err(fault) => Err(fault),
                },
                Err(fault) => Err(fault),
            },
            Some(ExternKind::Memory) => match limits_at(body, p) {
                Ok((_, q)) => Ok((ImportDesc::Memory, q)),
                Err(fault) => Err(fault),
            },
            Some(ExternKind::Global) => match val_type_at(body, p) {
                Ok((_, q)) => match byte_at(body, q) {
                    Ok((_, r)) => Ok((ImportDesc::Global, r)),
                    Err(fault) => Err(fault),
                },
                Err(fault) => Err(fault),
            },
            None => Err(Fault { offset: pos, kind: ParseErrorKind::InvalidExternKind(kind) }),
        },
        Err(fault) => Err(fault),
    }
}

/// The import at `pos`: the module it comes from, its name, its description.
pub open spec fn import_at(body: Seq<u8>, type_count: nat, pos: int) -> Parsed<ImportModel> {
    match name_at(body, pos) {
        Ok((module, p)) => match name_at(body, p) {
            Ok((name, q)) => match import_desc_at(body, type_count, q) {
                Ok((desc, r)) => Ok((ImportModel { module, name, desc }, r)),
                Err(fault) => Err(fault),
            },
            Err(fault) => Err(fault),
        },
        Err(fault) => Err(fault),
    }
}

/// The imports of a body, by position.
pub open spec fn imports(body: Seq<u8>, type_count: nat) -> spec_fn(int) -> Parsed<ImportModel> {
    |pos: int| import_at(body, type_count, pos)
}

/// The function section entry at `pos`.
pub open spec fn func_at(body: Seq<u8>, type_count: nat, pos: int) -> Parsed<Func> {
    match type_index_at(body, type_count, pos) {
        Ok((type_idx, p)) => Ok((Func { type_idx }, p)),
        Err(fault) => Err(fault),
    }
}

/// The function section entries of a body, by position.
pub open spec fn funcs(body: Seq<u8>, type_count: nat) -> spec_fn(int) -> Parsed<Func> {
    |pos: int| func_at(body, type_count, pos)
}

/// The export at `pos`: its name, a kind byte, an index.
pub open spec fn export_at(body: Seq<u8>, pos: int) -> Parsed<ExportModel> {
    match name_at(body, pos) {
        Ok((name, p)) => match byte_at(body, p) {
            Ok((byte, q)) => match ExternKind::encoded_by(byte) {
                Some(kind) => match u32_at(body, q) {
                    Ok((index, r)) => Ok((ExportModel { name, kind, index }, r)),
                    Err(fault) => Err(fault),
                },
                None => Err(Fault { offset: p, kind: ParseErrorKind::InvalidExternKind(byte) }),
            },
            Err(fault) => Err(fault),
        },
        Err(fault) => Err(fault),
    }
}

/// The exports of a body, by position.
pub open spec fn exports(body: Seq<u8>) -> spec_fn(int) -> Parsed<ExportModel> {
    |pos: int| export_at(body, pos)
}

/// What a whole section decodes to: its content must end where the section
/// does.
pub open spec fn whole<T>(body: Seq<u8>, content: Parsed<T>) -> Outcome<T> {
    match content {
        Ok((value, end)) => if end == body.len() {
            Ok(value)
        } else {
            Err(Fault { offset: end, kind: ParseErrorKind::SectionSizeMismatch })
        },
        Err(fault) => Err(fault),
    }
}

/// The type section.
pub open spec fn type_section(body: Seq<u8>) -> Outcome<Seq<FuncTypeModel>> {
    whole(body, vec_at(body, func_types(body), 0))
}

/// The import section of a module with `type_count` types.
pub open spec fn import_section(body: Seq<u8>, type_count: nat) -> Outcome<Seq<ImportModel>> {
    whole(body, vec_at(body, imports(body, type_count), 0))
}

/// The function section of a module with `type_count` types.
pub open spec fn function_section(body: Seq<u8>, type_count: nat) -> Outcome<Seq<Func>> {
    whole(body, vec_at(body, funcs(body, type_count), 0))
}

/// The export section.
pub open spec fn export_section(body: Seq<u8>) -> Outcome<Seq<ExportModel>> {
    whole(body, vec_at(body, exports(body), 0))
}

/// The start section.
pub open spec fn start_section(body: Seq<u8>) -> Outcome<u32> {
    whole(body, u32_at(body, 0))
}

/// Whether some byte from `start` on departs from `expected`, as far as there
/// are bytes.
pub open spec fn departs(bytes: Seq<u8>, start: int, expected: Seq<u8>) -> bool {
    exists|i: int|
        0 <= i < expected.len() && start + i < bytes.len() && #[trigger] expected[i] != bytes[start
            + i]
}

/// The magic number and the version: the position after them, or why they do
/// not stand at the start of `bytes`.
pub open spec fn header(bytes: Seq<u8>) -> Outcome<int> {
    if departs(bytes, 0, MAGIC@) {
        Err(Fault { offset: 0, kind: ParseErrorKind::NotWasm })
    } else if departs(bytes, 4, VERSION@) {
        Err(Fault { offset: 4, kind: ParseErrorKind::UnsupportedVersion })
    } else if bytes.len() < 8 {
        Err(Fault { offset: bytes.len() as int, kind: ParseErrorKind::UnexpectedEof })
    } else {
        Ok(8)
    }
}

/// One section as it lies in the binary: its id, and where its content starts
/// and ends.
pub struct Section {
    pub id: u8,
    pub start: int,
    pub end: int,
}

/// The section whose id stands at `pos`.
pub open spec fn section_at(bytes: Seq<u8>, pos: int) -> Outcome<Section> {
    match u32_at(bytes, pos + 1) {
        Ok((size, start)) => if start + size > bytes.len() {
            Err(Fault { offset: bytes.len() as int, kind: ParseErrorKind::UnexpectedEof })
        } else {
            Ok(Section { id: bytes[pos], start, end: start + size })
        },
        Err(fault) => Err(fault),
    }
}

/// The module with the content of a section of a known, non-custom id put in.
pub open spec fn with_content(m: ModuleModel, id: u8, body: Seq<u8>) -> Outcome<ModuleModel> {
    if id == 1 {
        match type_section(body) {
            Ok(types) => Ok(ModuleModel { types, ..m }),
            Err(fault) => Err(fault),
        }
    } else if id == 2 {
        match import_section(body, m.types.len()) {
            Ok(imports) => Ok(ModuleModel { imports, ..m }),
            Err(fault) => Err(fault),
        }
    } else if id == 3 {
        match function_section(body, m.types.len()) {
            Ok(funcs) => Ok(ModuleModel { funcs, ..m }),
            Err(fault) => Err(fault),
        }
    } else if id == 7 {
        match export_section(body) {
            Ok(exports) => Ok(ModuleModel { exports, ..m }),
            Err(fault) => Err(fault),
        }
    } else if id == 8 {
        match start_section(body) {
            Ok(index) => Ok(ModuleModel { start: Some(index), ..m }),
            Err(fault) => Err(fault),
        }
    } else {
        Ok(ModuleModel { skipped_sections: m.skipped_sections.push(id), ..m })
    }
}

/// What has been decoded so far: the module, and the id of the last known
/// section, zero before the first.
#[verifier::ext_equal]
pub struct Progress {
    pub m: ModuleModel,
    pub last: u8,
}

impl Progress {
    /// Nothing decoded yet.
    pub open spec fn none() -> Progress {
        Progress { m: ModuleModel::empty(), last: 0 }
    }
}

/// A fault placed in the whole binary, for content that starts at `base`.
pub open spec fn placed<T>(outcome: Outcome<T>, base: int) -> Outcome<T> {
    match outcome {
        Ok(value) => Ok(value),
        Err(fault) => Err(fault.shifted(base)),
    }
}

/// One more section: a custom section adds its name; a known section must
/// have a greater id than the last one and adds its content.
pub open spec fn advance(done: Progress, bytes: Seq<u8>, pos: int, section: Section) -> Outcome<
    Progress,
> {
    let body = bytes.subrange(section.start, section.end);
    if section.id == 0 {
        match name_at(body, 0) {
            Ok((name, _)) => Ok(
                Progress {
                    m: ModuleModel {
                        custom_sections: done.m.custom_sections.push(name),
                        ..done.m
                    },
                    last: done.last,
                },
            ),
            Err(fault) => Err(fault.shifted(section.start)),
        }
    } else if section.id > MAX_KNOWN_SECTION_ID {
        Err(Fault { offset: pos, kind: ParseErrorKind::UnknownSectionId(section.id) })
    } else if section.id <= done.last {
        Err(Fault { offset: pos, kind: ParseErrorKind::SectionOutOfOrder })
    } else {
        match with_content(done.m, section.id, body) {
            Ok(m) => Ok(Progress { m, last: section.id }),
            Err(fault) => Err(fault.shifted(section.start)),
        }
    }
}

/// A section lies within the binary, after its id and size.
pub proof fn lemma_section_bounds(bytes: Seq<u8>, pos: int)
    requires
        0 <= pos < bytes.len(),
    ensures
        match section_at(bytes, pos) {
            Ok(section) => pos + 2 <= section.start <= section.end <= bytes.len(),
            Err(fault) => pos < fault.offset <= bytes.len(),
        },
{
    leb::law_unsigned_fits(bytes, pos + 1, 32);
}

/// The sections from `pos` to the end of the binary.
pub open spec fn sections_from(bytes: Seq<u8>, pos: int, done: Progress) -> Outcome<Progress>
    decreases bytes.len() - pos,
{
    if !(0 <= pos < bytes.len()) {
        Ok(done)
    } else {
        proof {
            lemma_section_bounds(bytes, pos);
        }
        match section_at(bytes, pos) {
            Ok(section) => match advance(done, bytes, pos, section) {
                Ok(more) => sections_from(bytes, section.end, more),
                Err(fault) => Err(fault),
            },
            Err(fault) => Err(fault),
        }
    }
}

/// A complete binary: the header, then every section.
pub open spec fn module(bytes: Seq<u8>) -> Outcome<ModuleModel> {
    match header(bytes) {
        Ok(start) => match sections_from(bytes, start, Progress::none()) {
            Ok(done) => Ok(done.m),
            Err(fault) => Err(fault),
        },
        Err(fault) => Err(fault),
    }
}

} // verus!

//! The WebAssembly binary format decoder.
//!
//! After the header, a binary is a flat sequence of `(id, size, content)`
//! sections; `parse` walks that sequence once, checking the ordering rule
//! (known section ids must strictly increase; custom sections are exempt and
//! may appear anywhere, any number of times) and handing each section's bytes
//! to whatever understands that id. Type, import, function, export and start
//! sections have real parsers; the code section is skipped by length, and so
//! are table/memory/global/element/data/data-count sections, since this crate
//! never gives guest code memory or tables.

use crate::fault::Fault;
use crate::grammar;
use crate::leb;
use crate::leb::LebError;
use crate::text;
use crate::types::{Export, ExternKind, Func, FuncType, Import, ImportDesc, ValType};
use vstd::prelude::*;
use vstd::slice::*;
use vstd::string::*;

pub use crate::module::Module;

verus! {

/// The maximum section id defined by the binary format (the data-count
/// section added for bulk memory). Anything past this is not a section this
/// format knows about, known or otherwise.
pub const MAX_KNOWN_SECTION_ID: u8 = 12;

/// The byte that opens every function type: `0x60`.
pub const FUNC_TYPE_TAG: u8 = 0x60;

/// The four bytes that open every WebAssembly binary: `\0asm`.
pub const MAGIC: [u8; 4] = [0x00, 0x61, 0x73, 0x6D];

/// The only version this crate understands. There has only ever been one
/// released version of the binary format; a `2` or later here would mean a
/// future format this parser was not written against.
pub const VERSION: [u8; 4] = [0x01, 0x00, 0x00, 0x00];

/// Why parsing failed, and where.
#[derive(Debug, Clone, Copy, PartialEq, Eq, Structural)]
pub struct ParseError {
    /// The byte offset that broke.
    pub offset: usize,
    pub kind: ParseErrorKind,
}

#[derive(Debug, Clone, Copy, PartialEq, Eq, Structural)]
pub enum ParseErrorKind {
    /// The first four bytes are not `\0asm`.
    NotWasm,
    /// The magic number is fine but the version is not one this parser
    /// implements.
    UnsupportedVersion,
    /// The input ended before a required byte.
    UnexpectedEof,
    /// A LEB128 immediate (a section size, a vector count, a type tag's
    /// operand) failed to decode.
    Leb(LebError),
    /// A section id past `MAX_KNOWN_SECTION_ID`.
    UnknownSectionId(u8),
    /// A known section appeared out of the order the format requires, or a
    /// second copy of a section id that may only appear once. Custom
    /// sections (id 0) are exempt from this check.
    SectionOutOfOrder,
    /// A section's declared byte length did not match the number of bytes
    /// its content actually decoded to.
    SectionSizeMismatch,
    /// A byte that was supposed to encode a value type is none of `i32`,
    /// `i64`, `f32`, `f64`.
    InvalidValType(u8),
    /// A function type did not start with `0x60`.
    InvalidFuncType(u8),
    /// An import or export description's kind byte was none of `0x00`
    /// (func), `0x01` (table), `0x02` (memory), `0x03` (global).
    InvalidExternKind(u8),
    /// A table or memory limits' flag byte was neither `0x00` (min only) nor
    /// `0x01` (min and max).
    InvalidLimits,
    /// A custom section's name, or a name in an import or export, was not
    /// valid UTF-8.
    InvalidUtf8,
    /// A type index named by an import or the function section named a type
    /// that does not exist.
    TypeIndexOutOfRange(u32),
}

impl View for ParseError {
    type V = Fault<ParseErrorKind>;

    open spec fn view(&self) -> Fault<ParseErrorKind> {
        Fault { offset: self.offset as int, kind: self.kind }
    }
}

impl ParseErrorKind {
    /// The message for people.
    pub open spec fn text(self) -> Seq<char> {
        match self {
            ParseErrorKind::NotWasm => "not a WebAssembly binary (bad magic number)"@,
            ParseErrorKind::UnsupportedVersion => "unsupported WebAssembly version"@,
            ParseErrorKind::UnexpectedEof => "unexpected end of input"@,
            ParseErrorKind::Leb(e) => e.text(),
            ParseErrorKind::UnknownSectionId(id) => "unknown section id "@ + text::decimal(
                id as int,
            ),
            ParseErrorKind::SectionOutOfOrder => "section out of order"@,
            ParseErrorKind::SectionSizeMismatch => "section content did not match its declared size"@,
            ParseErrorKind::InvalidValType(byte) => "invalid value type byte "@ + text::hex(byte),
            ParseErrorKind::InvalidFuncType(byte) => "invalid function type tag "@ + text::hex(byte) + " (expected 0x60)"@,
            ParseErrorKind::InvalidExternKind(byte) => "invalid import/export kind byte "@ + text::hex(byte),
            ParseErrorKind::InvalidLimits => "invalid limits flag byte (expected 0x00 or 0x01)"@,
            ParseErrorKind::InvalidUtf8 => "custom section name is not valid UTF-8"@,
            ParseErrorKind::TypeIndexOutOfRange(index) => "type index "@ + text::decimal(
                index as int,
            ) + " is out of range"@,
        }
    }

    /// The message for people.
    pub fn to_string(&self) -> (res: String)
        ensures
            res@ == self.text(),
    {
        match self {
            ParseErrorKind::NotWasm => String::from_str(
                "not a WebAssembly binary (bad magic number)",
            ),
            ParseErrorKind::UnsupportedVersion => String::from_str(
                "unsupported WebAssembly version",
            ),
            ParseErrorKind::UnexpectedEof => String::from_str(
                "unexpected end of input",
            ),
            ParseErrorKind::Leb(e) => e.to_string(),
            ParseErrorKind::UnknownSectionId(id) => {
                let mut message: String = String::from_str("unknown section id ");
                text::append_decimal(&mut message, *id as usize);
                message
            },
            ParseErrorKind::SectionOutOfOrder => String::from_str(
                "section out of order",
            ),
            ParseErrorKind::SectionSizeMismatch => String::from_str(
                "section content did not match its declared size",
            ),
            ParseErrorKind::InvalidValType(byte) => {
                let mut message: String = String::from_str("invalid value type byte ");
                text::append_hex(&mut message, *byte);
                message
            },
            ParseErrorKind::InvalidFuncType(byte) => {
                let mut message: String = String::from_str("invalid function type tag ");
                text::append_hex(&mut message, *byte);
                message.append(" (expected 0x60)");
                message
            },
            ParseErrorKind::InvalidExternKind(byte) => {
                let mut message: String = String::from_str("invalid import/export kind byte ");
                text::append_hex(&mut message, *byte);
                message
            },
            ParseErrorKind::InvalidLimits => String::from_str(
                "invalid limits flag byte (expected 0x00 or 0x01)",
            ),
            ParseErrorKind::InvalidUtf8 => String::from_str(
                "custom section name is not valid UTF-8",
            ),
            ParseErrorKind::TypeIndexOutOfRange(index) => {
                let mut message: String = String::from_str("type index ");
                text::append_decimal(&mut message, *index as usize);
                message.append(" is out of range");
                message
            },
        }
    }
}

impl ParseError {
    /// The message for people: where, then why.
    pub fn to_string(&self) -> (res: String)
        ensures
            res@ == "at byte "@ + text::decimal(self.offset as int) + ": "@ + self.kind.text(),
    {
        let mut message: String = String::from_str("at byte ");
        text::append_decimal(&mut message, self.offset);
        message.append(": ");
        message.append(self.kind.to_string().as_str());
        message
    }
}

/// Checks the magic number and version at the start of `bytes` and returns
/// the offset of the first byte after them, i.e. where section parsing would
/// continue from.
///
/// A mismatched magic byte is reported as `NotWasm` at offset `0` rather than
/// at the exact byte that differed - the header is one indivisible thing, and
/// "this is not a wasm file" is a more useful message than the position of
/// the first wrong byte within it.
pub fn parse_header(bytes: &[u8]) -> (res: Result<usize, ParseError>)
    ensures
        match grammar::header(bytes@) {
            Ok(start) => res matches Ok(n) && n == start,
            Err(fault) => res matches Err(e) && e@ == fault,
        },
{
    for i in 0..4usize
        invariant
            i <= bytes@.len(),
            forall|j: int| 0 <= j < i ==> #[trigger] MAGIC@[j] == bytes@[j],
    {
        if i >= bytes.len() {
            return Err(ParseError { offset: i, kind: ParseErrorKind::UnexpectedEof });
        }
        if bytes[i] != MAGIC[i] {
            assert(MAGIC@[i as int] != bytes@[0 + i]);
            return Err(ParseError { offset: 0, kind: ParseErrorKind::NotWasm });
        }
    }
    for i in 0..4usize
        invariant
            4 + i <= bytes@.len(),
            !grammar::departs(bytes@, 0, MAGIC@),
            forall|j: int| 0 <= j < i ==> #[trigger] VERSION@[j] == bytes@[4 + j],
    {
        let offset: usize = 4 + i;
        if offset >= bytes.len() {
            return Err(ParseError { offset, kind: ParseErrorKind::UnexpectedEof });
        }
        if bytes[offset] != VERSION[i] {
            assert(VERSION@[i as int] != bytes@[4 + i]);
            return Err(ParseError { offset: 4, kind: ParseErrorKind::UnsupportedVersion });
        }
    }
    Ok(8)
}

/// Whether a reader that was handed a body starting at offset `base` of the
/// binary, and stopped at `end`, did what the format says.
spec fn agrees<T: DeepView>(
    got: Result<T, ParseError>,
    end: usize,
    want: grammar::Parsed<T::V>,
    base: usize,
) -> bool {
    match want {
        Ok((value, next)) => got matches Ok(v) && v.deep_view() == value && end == next,
        Err(fault) => got matches Err(e) && e@ == fault.shifted(base as int),
    }
}

/// Decodes a `u32` from `body` at `*pos`, translating a LEB128 failure into
/// a `ParseError` whose offset is `base` (the absolute position of `body`
/// within the whole module) plus the position the decoder stopped at.
fn read_u32_at(body: &[u8], pos: &mut usize, base: usize) -> (res: Result<u32, ParseError>)
    requires
        *old(pos) <= body@.len(),
        base + body@.len() <= usize::MAX,
    ensures
        *old(pos) <= *final(pos) <= body@.len(),
        agrees(res, *final(pos), grammar::u32_at(body@, *old(pos) as int), base),
{
    proof {
        leb::law_unsigned_fits(body@, *pos as int, 32);
    }
    match leb::read_u32(body, pos) {
        Ok(value) => Ok(value),
        Err(e) => Err(ParseError { offset: base + *pos, kind: ParseErrorKind::Leb(e) }),
    }
}

/// Reads a single byte at `*pos`, advancing past it, or reports the absolute
/// offset (`base + *pos`) as `UnexpectedEof`.
fn read_byte(body: &[u8], pos: &mut usize, base: usize) -> (res: Result<u8, ParseError>)
    requires
        *old(pos) <= body@.len(),
        base + body@.len() <= usize::MAX,
    ensures
        *old(pos) <= *final(pos) <= body@.len(),
        agrees(res, *final(pos), grammar::byte_at(body@, *old(pos) as int), base),
{
    let offset: usize = base + *pos;
    if *pos >= body.len() {
        return Err(ParseError { offset, kind: ParseErrorKind::UnexpectedEof });
    }
    let byte: u8 = body[*pos];
    *pos = *pos + 1;
    Ok(byte)
}

/// Reads a `limits`: a flag byte (`0x00` min-only, `0x01` min and max)
/// followed by one or two `u32`s. Any other flag byte is rejected before
/// anything after it is read. Used by table and memory import types; the
/// values themselves are not kept since this crate gives guest code neither
/// tables nor memory.
fn read_limits(body: &[u8], pos: &mut usize, base: usize) -> (res: Result<(), ParseError>)
    requires
        *old(pos) <= body@.len(),
        base + body@.len() <= usize::MAX,
    ensures
        *old(pos) <= *final(pos) <= body@.len(),
        agrees(res, *final(pos), grammar::limits_at(body@, *old(pos) as int), base),
{
    let flag_offset: usize = base + *pos;
    let flag: u8 = read_byte(body, pos, base)?;
    if flag > 0x01 {
        return Err(ParseError { offset: flag_offset, kind: ParseErrorKind::InvalidLimits });
    }
    let _min: u32 = read_u32_at(body, pos, base)?;
    if flag == 0x01 {
        let _max: u32 = read_u32_at(body, pos, base)?;
    }
    Ok(())
}

/// Reads a name: `vec(byte)` interpreted as UTF-8. Any bytes after the name
/// are left unread.
fn read_name(body: &[u8], pos: &mut usize, base: usize) -> (res: Result<String, ParseError>)
    requires
        *old(pos) <= body@.len(),
        base + body@.len() <= usize::MAX,
    ensures
        *old(pos) <= *final(pos) <= body@.len(),
        agrees(res, *final(pos), grammar::name_at(body@, *old(pos) as int), base),
{
    let len: usize = read_u32_at(body, pos, base)? as usize;
    let start: usize = *pos;
    if len > body.len() - start {
        return Err(
            ParseError { offset: base + body.len(), kind: ParseErrorKind::UnexpectedEof },
        );
    }
    let end: usize = start + len;
    match text::from_utf8(slice_subrange(body, start, end)) {
        Some(name) => {
            *pos = end;
            Ok(name.to_owned())
        },
        None => Err(ParseError { offset: base + start, kind: ParseErrorKind::InvalidUtf8 }),
    }
}

/// Reads a value type byte.
fn read_val_type(body: &[u8], pos: &mut usize, base: usize) -> (res: Result<ValType, ParseError>)
    requires
        *old(pos) <= body@.len(),
        base + body@.len() <= usize::MAX,
    ensures
        *old(pos) <= *final(pos) <= body@.len(),
        agrees(res, *final(pos), grammar::val_type_at(body@, *old(pos) as int), base),
{
    let offset: usize = base + *pos;
    let byte: u8 = read_byte(body, pos, base)?;
    match ValType::from_byte(byte) {
        Some(t) => Ok(t),
        None => Err(ParseError { offset, kind: ParseErrorKind::InvalidValType(byte) }),
    }
}

/// Reads `vec(valtype)`.
fn read_val_type_vec(body: &[u8], pos: &mut usize, base: usize) -> (res: Result<
    Vec<ValType>,
    ParseError,
>)
    requires
        *old(pos) <= body@.len(),
        base + body@.len() <= usize::MAX,
    ensures
        *old(pos) <= *final(pos) <= body@.len(),
        agrees(
            res,
            *final(pos),
            grammar::vec_at(body@, grammar::val_types(body@), *old(pos) as int),
            base,
        ),
{
    let count: u32 = read_u32_at(body, pos, base)?;
    let ghost item = grammar::val_types(body@);
    let ghost first = *pos as int;
    let mut out: Vec<ValType> = Vec::new();
    assert(out.deep_view() =~= Seq::empty());
    for i in 0..count
        invariant
            base + body@.len() <= usize::MAX,
            *old(pos) <= *pos <= body@.len(),
            item == grammar::val_types(body@),
            grammar::vec_at(body@, item, *old(pos) as int) == grammar::items(
                item,
                first,
                count as nat,
            ),
            grammar::items(item, first, i as nat) == Ok::<_, Fault<ParseErrorKind>>(
                (out.deep_view(), *pos as int),
            ),
    {
        let ghost before = out.deep_view();
        proof {
            grammar::lemma_items_fault_stays(item, first, (i + 1) as nat, count as nat);
        }
        let t: ValType = read_val_type(body, pos, base)?;
        out.push(t);
        assert(out.deep_view() =~= before.push(t.deep_view()));
    }
    Ok(out)
}

/// Reads a `functype`: `0x60 vec(valtype) vec(valtype)` (parameters, then
/// results).
fn read_func_type(body: &[u8], pos: &mut usize, base: usize) -> (res: Result<FuncType, ParseError>)
    requires
        *old(pos) <= body@.len(),
        base + body@.len() <= usize::MAX,
    ensures
        *old(pos) <= *final(pos) <= body@.len(),
        agrees(res, *final(pos), grammar::func_type_at(body@, *old(pos) as int), base),
{
    let tag_offset: usize = base + *pos;
    let tag: u8 = read_byte(body, pos, base)?;
    if tag != FUNC_TYPE_TAG {
        return Err(ParseError { offset: tag_offset, kind: ParseErrorKind::InvalidFuncType(tag) });
    }
    let params: Vec<ValType> = read_val_type_vec(body, pos, base)?;
    let results: Vec<ValType> = read_val_type_vec(body, pos, base)?;
    assert(params.deep_view() =~= params@);
    assert(results.deep_view() =~= results@);
    Ok(FuncType { params, results })
}

/// Whether a section parser that was handed a body starting at offset `base`
/// of the binary did what the format says.
spec fn agrees_whole<T: DeepView>(
    got: Result<T, ParseError>,
    want: grammar::Outcome<T::V>,
    base: usize,
) -> bool {
    match want {
        Ok(value) => got matches Ok(v) && v.deep_view() == value,
        Err(fault) => got matches Err(e) && e@ == fault.shifted(base as int),
    }
}

/// Decodes the type section: `vec(functype)`.
fn parse_type_section(body: &[u8], base: usize) -> (res: Result<
    Vec<FuncType>,
    ParseError,
>)
    requires
        base + body@.len() <= usize::MAX,
    ensures
        agrees_whole(res, grammar::type_section(body@), base),
{
    let mut pos: usize = 0;
    let count: u32 = read_u32_at(body, &mut pos, base)?;
    let ghost item = grammar::func_types(body@);
    let ghost first = pos as int;
    let mut out: Vec<FuncType> = Vec::new();
    assert(out.deep_view() =~= Seq::empty());
    for i in 0..count
        invariant
            base + body@.len() <= usize::MAX,
            pos <= body@.len(),
            item == grammar::func_types(body@),
            grammar::vec_at(body@, item, 0) == grammar::items(item, first, count as nat),
            grammar::items(item, first, i as nat) == Ok::<_, Fault<ParseErrorKind>>(
                (out.deep_view(), pos as int),
            ),
    {
        let ghost before = out.deep_view();
        proof {
            grammar::lemma_items_fault_stays(item, first, (i + 1) as nat, count as nat);
        }
        let entry: FuncType = read_func_type(body, &mut pos, base)?;
        out.push(entry);
        assert(out.deep_view() =~= before.push(entry.deep_view()));
    }
    // A fully understood section can catch a size field that lied: if the
    // declared count of types did not consume exactly `size` bytes, the file
    // is malformed even though every individual value decoded cleanly.
    if pos != body.len() {
        return Err(
            ParseError { offset: base + pos, kind: ParseErrorKind::SectionSizeMismatch },
        );
    }
    Ok(out)
}

/// Reads a type index and checks it against the module's types.
fn read_type_index(body: &[u8], pos: &mut usize, base: usize, types: &[FuncType]) -> (res: Result<
    u32,
    ParseError,
>)
    requires
        *old(pos) <= body@.len(),
        base + body@.len() <= usize::MAX,
    ensures
        *old(pos) <= *final(pos) <= body@.len(),
        agrees(
            res,
            *final(pos),
            grammar::type_index_at(body@, types@.len(), *old(pos) as int),
            base,
        ),
{
    let offset: usize = base + *pos;
    let index: u32 = read_u32_at(body, pos, base)?;
    if index as usize >= types.len() {
        return Err(ParseError { offset, kind: ParseErrorKind::TypeIndexOutOfRange(index) });
    }
    Ok(index)
}

/// Reads an `importdesc`: a kind byte (func/table/memory/global) that
/// determines what follows - a type index for a function, a table type or
/// limits for a table or memory, a value type and mutability flag for a
/// global. Only the function case keeps its payload.
fn read_import_desc(body: &[u8], pos: &mut usize, base: usize, types: &[FuncType]) -> (res: Result<
    ImportDesc,
    ParseError,
>)
    requires
        *old(pos) <= body@.len(),
        base + body@.len() <= usize::MAX,
    ensures
        *old(pos) <= *final(pos) <= body@.len(),
        agrees(
            res,
            *final(pos),
            grammar::import_desc_at(body@, types@.len(), *old(pos) as int),
            base,
        ),
{
    let kind_offset: usize = base + *pos;
    let kind_byte: u8 = read_byte(body, pos, base)?;
    match ExternKind::from_byte(kind_byte) {
        Some(ExternKind::Func) => {
            let type_idx: u32 = read_type_index(body, pos, base, types)?;
            Ok(ImportDesc::Func(type_idx))
        },
        Some(ExternKind::Table) => {
            // A reference type byte (funcref or externref) that is never
            // inspected, since guest code never gets a table either way.
            let _reftype: u8 = read_byte(body, pos, base)?;
            read_limits(body, pos, base)?;
            Ok(ImportDesc::Table)
        },
        Some(ExternKind::Memory) => {
            read_limits(body, pos, base)?;
            Ok(ImportDesc::Memory)
        },
        Some(ExternKind::Global) => {
            let _val_type: ValType = read_val_type(body, pos, base)?;
            let _mutability: u8 = read_byte(body, pos, base)?;
            Ok(ImportDesc::Global)
        },
        None => Err(
            ParseError {
                offset: kind_offset,
                kind: ParseErrorKind::InvalidExternKind(kind_byte),
            },
        ),
    }
}

/// Reads an `import`: `mod:name name:name desc:importdesc`.
fn read_import(body: &[u8], pos: &mut usize, base: usize, types: &[FuncType]) -> (res: Result<
    Import,
    ParseError,
>)
    requires
        *old(pos) <= body@.len(),
        base + body@.len() <= usize::MAX,
    ensures
        *old(pos) <= *final(pos) <= body@.len(),
        agrees(
            res,
            *final(pos),
            grammar::import_at(body@, types@.len(), *old(pos) as int),
            base,
        ),
{
    let module: String = read_name(body, pos, base)?;
    let name: String = read_name(body, pos, base)?;
    let desc: ImportDesc = read_import_desc(body, pos, base, types)?;
    Ok(Import { module, name, desc })
}

/// Decodes the import section: `vec(import)`. `types` is passed in so a
/// function import's type index can be checked against it immediately, the
/// same way the function section checks its own type indices.
fn parse_import_section(body: &[u8], base: usize, types: &[FuncType]) -> (res: Result<
    Vec<Import>,
    ParseError,
>)
    requires
        base + body@.len() <= usize::MAX,
    ensures
        agrees_whole(res, grammar::import_section(body@, types@.len()), base),
{
    let mut pos: usize = 0;
    let count: u32 = read_u32_at(body, &mut pos, base)?;
    let ghost item = grammar::imports(body@, types@.len());
    let ghost first = pos as int;
    let mut out: Vec<Import> = Vec::new();
    assert(out.deep_view() =~= Seq::empty());
    for i in 0..count
        invariant
            base + body@.len() <= usize::MAX,
            pos <= body@.len(),
            item == grammar::imports(body@, types@.len()),
            grammar::vec_at(body@, item, 0) == grammar::items(item, first, count as nat),
            grammar::items(item, first, i as nat) == Ok::<_, Fault<ParseErrorKind>>(
                (out.deep_view(), pos as int),
            ),
    {
        let ghost before = out.deep_view();
        proof {
            grammar::lemma_items_fault_stays(item, first, (i + 1) as nat, count as nat);
        }
        let entry: Import = read_import(body, &mut pos, base, types)?;
        out.push(entry);
        assert(out.deep_view() =~= before.push(entry.deep_view()));
    }
    if pos != body.len() {
        return Err(
            ParseError { offset: base + pos, kind: ParseErrorKind::SectionSizeMismatch },
        );
    }
    Ok(out)
}

/// Reads a function section entry: a `typeidx`.
fn read_func(body: &[u8], pos: &mut usize, base: usize, types: &[FuncType]) -> (res: Result<
    Func,
    ParseError,
>)
    requires
        *old(pos) <= body@.len(),
        base + body@.len() <= usize::MAX,
    ensures
        *old(pos) <= *final(pos) <= body@.len(),
        agrees(
            res,
            *final(pos),
            grammar::func_at(body@, types@.len(), *old(pos) as int),
            base,
        ),
{
    let type_idx: u32 = read_type_index(body, pos, base, types)?;
    Ok(Func { type_idx })
}

/// Decodes the function section: `vec(typeidx)`, one entry per locally
/// defined function, in the order the code section's bodies match up with.
fn parse_function_section(body: &[u8], base: usize, types: &[FuncType]) -> (res: Result<
    Vec<Func>,
    ParseError,
>)
    requires
        base + body@.len() <= usize::MAX,
    ensures
        agrees_whole(res, grammar::function_section(body@, types@.len()), base),
{
    let mut pos: usize = 0;
    let count: u32 = read_u32_at(body, &mut pos, base)?;
    let ghost item = grammar::funcs(body@, types@.len());
    let ghost first = pos as int;
    let mut out: Vec<Func> = Vec::new();
    assert(out.deep_view() =~= Seq::empty());
    for i in 0..count
        invariant
            base + body@.len() <= usize::MAX,
            pos <= body@.len(),
            item == grammar::funcs(body@, types@.len()),
            grammar::vec_at(body@, item, 0) == grammar::items(item, first, count as nat),
            grammar::items(item, first, i as nat) == Ok::<_, Fault<ParseErrorKind>>(
                (out.deep_view(), pos as int),
            ),
    {
        let ghost before = out.deep_view();
        proof {
            grammar::lemma_items_fault_stays(item, first, (i + 1) as nat, count as nat);
        }
        let entry: Func = read_func(body, &mut pos, base, types)?;
        out.push(entry);
        assert(out.deep_view() =~= before.push(entry.deep_view()));
    }
    if pos != body.len() {
        return Err(
            ParseError { offset: base + pos, kind: ParseErrorKind::SectionSizeMismatch },
        );
    }
    Ok(out)
}

/// Reads an `export`: `name:name desc:exportdesc`, where `exportdesc` is a
/// kind byte followed by an index into that kind's index space.
fn read_export(body: &[u8], pos: &mut usize, base: usize) -> (res: Result<Export, ParseError>)
    requires
        *old(pos) <= body@.len(),
        base + body@.len() <= usize::MAX,
    ensures
        *old(pos) <= *final(pos) <= body@.len(),
        agrees(res, *final(pos), grammar::export_at(body@, *old(pos) as int), base),
{
    let name: String = read_name(body, pos, base)?;
    let kind_offset: usize = base + *pos;
    let kind_byte: u8 = read_byte(body, pos, base)?;
    match ExternKind::from_byte(kind_byte) {
        Some(kind) => {
            let index: u32 = read_u32_at(body, pos, base)?;
            Ok(Export { name, kind, index })
        },
        None => Err(
            ParseError {
                offset: kind_offset,
                kind: ParseErrorKind::InvalidExternKind(kind_byte),
            },
        ),
    }
}

/// Decodes the export section: `vec(export)`.
fn parse_export_section(body: &[u8], base: usize) -> (res: Result<
    Vec<Export>,
    ParseError,
>)
    requires
        base + body@.len() <= usize::MAX,
    ensures
        agrees_whole(res, grammar::export_section(body@), base),
{
    let mut pos: usize = 0;
    let count: u32 = read_u32_at(body, &mut pos, base)?;
    let ghost item = grammar::exports(body@);
    let ghost first = pos as int;
    let mut out: Vec<Export> = Vec::new();
    assert(out.deep_view() =~= Seq::empty());
    for i in 0..count
        invariant
            base + body@.len() <= usize::MAX,
            pos <= body@.len(),
            item == grammar::exports(body@),
            grammar::vec_at(body@, item, 0) == grammar::items(item, first, count as nat),
            grammar::items(item, first, i as nat) == Ok::<_, Fault<ParseErrorKind>>(
                (out.deep_view(), pos as int),
            ),
    {
        let ghost before = out.deep_view();
        proof {
            grammar::lemma_items_fault_stays(item, first, (i + 1) as nat, count as nat);
        }
        let entry: Export = read_export(body, &mut pos, base)?;
        out.push(entry);
        assert(out.deep_view() =~= before.push(entry.deep_view()));
    }
    if pos != body.len() {
        return Err(
            ParseError { offset: base + pos, kind: ParseErrorKind::SectionSizeMismatch },
        );
    }
    Ok(out)
}

/// Decodes the start section: a single `funcidx`, with no length prefix of
/// its own beyond the section's.
fn parse_start_section(body: &[u8], base: usize) -> (res: Result<u32, ParseError>)
    requires
        base + body@.len() <= usize::MAX,
    ensures
        agrees_whole(res, grammar::start_section(body@), base),
{
    let mut pos: usize = 0;
    let index: u32 = read_u32_at(body, &mut pos, base)?;
    if pos != body.len() {
        return Err(
            ParseError { offset: base + pos, kind: ParseErrorKind::SectionSizeMismatch },
        );
    }
    Ok(index)
}

/// Parses a complete WebAssembly binary: the header, then every section.
///
/// Sections are read as `(id: u8, size: u32, content: [u8; size])` in a flat
/// loop. Known section ids (1 through `MAX_KNOWN_SECTION_ID`) must strictly
/// increase from one section to the next, which also forbids repeating one;
/// custom sections (id 0) are exempt and may appear anywhere, any number of
/// times. Type, import, function, export and start sections are decoded;
/// every other known id is skipped by length and recorded in
/// `Module::skipped_sections`.
pub fn parse(bytes: &[u8]) -> (res: Result<Module, ParseError>)
    ensures
        match grammar::module(bytes@) {
            Ok(m) => res matches Ok(module) && module@ == m,
            Err(fault) => res matches Err(e) && e@ == fault,
        },
{
    let mut pos: usize = parse_header(bytes)?;
    let mut module: Module = Module::default();
    let mut last_known_id: Option<u8> = None;
    while pos < bytes.len()
        invariant
            last_known_id matches Some(last) ==> last > 0,
            grammar::header(bytes@) == Ok::<int, Fault<ParseErrorKind>>(8),
            grammar::sections_from(bytes@, 8, grammar::Progress::none())
                == grammar::sections_from(
                bytes@,
                pos as int,
                grammar::Progress {
                    m: module@,
                    last: match last_known_id {
                        Some(last) => last,
                        None => 0,
                    },
                },
            ),
        decreases bytes@.len() - pos,
    {
        let ghost before = module@;
        proof {
            grammar::lemma_section_bounds(bytes@, pos as int);
        }
        let section_start: usize = pos;
        let id: u8 = bytes[pos];
        pos = pos + 1;
        let size: usize = read_u32_at(bytes, &mut pos, 0)? as usize;
        let body_start: usize = pos;
        if size > bytes.len() - body_start {
            return Err(
                ParseError { offset: bytes.len(), kind: ParseErrorKind::UnexpectedEof },
            );
        }
        let body_end: usize = body_start + size;
        let body: &[u8] = slice_subrange(bytes, body_start, body_end);
        if id == 0 {
            let mut name_pos: usize = 0;
            let name: String = read_name(body, &mut name_pos, body_start)?;
            module.custom_sections.push(name);
            assert(module@.custom_sections =~= before.custom_sections.push(name@));
        } else if id <= MAX_KNOWN_SECTION_ID {
            if let Some(last) = last_known_id {
                if id <= last {
                    return Err(
                        ParseError {
                            offset: section_start,
                            kind: ParseErrorKind::SectionOutOfOrder,
                        },
                    );
                }
            }
            last_known_id = Some(id);
            match id {
                1 => {
                    module.types = parse_type_section(body, body_start)?;
                },
                2 => {
                    module.imports =
                    parse_import_section(body, body_start, module.types.as_slice())?;
                },
                3 => {
                    module.funcs =
                    parse_function_section(body, body_start, module.types.as_slice())?;
                    assert(module.funcs.deep_view() =~= module.funcs@);
                },
                7 => {
                    module.exports = parse_export_section(body, body_start)?;
                },
                8 => {
                    module.start = Some(parse_start_section(body, body_start)?);
                },
                _ => {
                    module.skipped_sections.push(id);
                },
            }
        } else {
            return Err(
                ParseError {
                    offset: section_start,
                    kind: ParseErrorKind::UnknownSectionId(id),
                },
            );
        }
        pos = body_end;
    }
    Ok(module)
}

} // verus!

//! The type vocabulary of a module: `ValType` (what the binary format
//! encodes), `FuncType` (a signature), and the entries of the import, function
//! and export sections.

use vstd::prelude::*;
use vstd::string::*;

verus! {

/// A WebAssembly value type.
///
/// The binary format also defines reference types (`funcref`, `externref`)
/// and, in the SIMD proposal, `v128`. Nothing in this crate produces or
/// consumes those, so they have no variant here; the parser rejects their
/// byte encodings with `ParseErrorKind::InvalidValType`.
#[derive(Debug, Clone, Copy, PartialEq, Eq, Structural)]
pub enum ValType {
    I32,
    I64,
    F32,
    F64,
}

impl DeepView for ValType {
    type V = ValType;

    open spec fn deep_view(&self) -> ValType {
        *self
    }
}

impl ValType {
    /// The value type that a byte encodes.
    pub open spec fn encoded_by(byte: u8) -> Option<ValType> {
        if byte == 0x7F {
            Some(ValType::I32)
        } else if byte == 0x7E {
            Some(ValType::I64)
        } else if byte == 0x7D {
            Some(ValType::F32)
        } else if byte == 0x7C {
            Some(ValType::F64)
        } else {
            None
        }
    }

    /// The name of the type in the text format.
    pub open spec fn text(self) -> Seq<char> {
        match self {
            ValType::I32 => "i32"@,
            ValType::I64 => "i64"@,
            ValType::F32 => "f32"@,
            ValType::F64 => "f64"@,
        }
    }

    /// Decodes the single byte the binary format uses for a value type,
    /// e.g. in a function signature or a local declaration.
    pub fn from_byte(byte: u8) -> (res: Option<ValType>)
        ensures
            res == ValType::encoded_by(byte),
    {
        match byte {
            0x7F => Some(ValType::I32),
            0x7E => Some(ValType::I64),
            0x7D => Some(ValType::F32),
            0x7C => Some(ValType::F64),
            _ => None,
        }
    }

    /// The name of the type in the text format, e.g. `i32`.
    fn name(&self) -> (res: &'static str)
        ensures
            res@ == self.text(),
    {
        match self {
            ValType::I32 => "i32",
            ValType::I64 => "i64",
            ValType::F32 => "f32",
            ValType::F64 => "f64",
        }
    }

    /// The name of the type in the text format, as an owned string.
    pub fn to_string(&self) -> (res: String)
        ensures
            res@ == self.text(),
    {
        String::from_str(self.name())
    }
}

/// A function signature: an ordered list of parameter types followed by an
/// ordered list of result types.
///
/// WebAssembly 1.0 allows at most one result, but the field is a `Vec`
/// rather than an `Option` so that a module using the multi-value proposal
/// still decodes into something this type can represent.
#[derive(Debug, Clone, PartialEq, Eq)]
pub struct FuncType {
    pub params: Vec<ValType>,
    pub results: Vec<ValType>,
}

/// A function signature as a mathematical value.
#[verifier::ext_equal]
pub struct FuncTypeModel {
    pub params: Seq<ValType>,
    pub results: Seq<ValType>,
}

impl DeepView for FuncType {
    type V = FuncTypeModel;

    open spec fn deep_view(&self) -> FuncTypeModel {
        FuncTypeModel { params: self.params@, results: self.results@ }
    }
}

/// The names of value types, separated by `, `.
pub open spec fn list_text(types: Seq<ValType>) -> Seq<char>
    decreases types.len(),
{
    if types.len() == 0 {
        Seq::empty()
    } else if types.len() == 1 {
        types[0].text()
    } else {
        list_text(types.drop_last()) + ", "@ + types.last().text()
    }
}

impl FuncTypeModel {
    /// The signature as text: the parameters in parentheses, an arrow, then
    /// the results, in parentheses unless there is exactly one.
    pub open spec fn text(self) -> Seq<char> {
        let results = if self.results.len() == 0 {
            "()"@
        } else if self.results.len() == 1 {
            self.results[0].text()
        } else {
            "("@ + list_text(self.results) + ")"@
        };
        "("@ + list_text(self.params) + ") -> "@ + results
    }
}

/// Appends the names of value types, separated by `, `.
fn append_list(text: &mut String, types: &Vec<ValType>)
    ensures
        final(text)@ == old(text)@ + list_text(types@),
{
    let ghost start = text@;
    for i in 0..types.len()
        invariant
            text@ == start + list_text(types@.take(i as int)),
    {
        assert(types@.take(i + 1).drop_last() =~= types@.take(i as int));
        if i > 0 {
            text.append(", ");
        }
        text.append(types[i].name());
        assert(text@ =~= start + list_text(types@.take(i + 1)));
    }
    assert(types@.take(types@.len() as int) =~= types@);
}

impl FuncType {
    /// The signature as text, e.g. `(i32, i64) -> f64`.
    pub fn to_string(&self) -> (res: String)
        ensures
            res@ == self.deep_view().text(),
    {
        let mut text: String = String::from_str("(");
        append_list(&mut text, &self.params);
        text.append(") -> ");
        if self.results.len() == 0 {
            text.append("()");
        } else if self.results.len() == 1 {
            text.append(self.results[0].name());
        } else {
            text.append("(");
            append_list(&mut text, &self.results);
            text.append(")");
        }
        assert(text@ =~= self.deep_view().text());
        text
    }
}

/// What an import or an export names.
#[derive(Debug, Clone, Copy, PartialEq, Eq, Structural)]
pub enum ExternKind {
    Func,
    Table,
    Memory,
    Global,
}

impl ExternKind {
    /// The kind that a byte encodes.
    pub open spec fn encoded_by(byte: u8) -> Option<ExternKind> {
        if byte == 0x00 {
            Some(ExternKind::Func)
        } else if byte == 0x01 {
            Some(ExternKind::Table)
        } else if byte == 0x02 {
            Some(ExternKind::Memory)
        } else if byte == 0x03 {
            Some(ExternKind::Global)
        } else {
            None
        }
    }

    /// Decodes the kind byte of an import or export description.
    pub fn from_byte(byte: u8) -> (res: Option<ExternKind>)
        ensures
            res == ExternKind::encoded_by(byte),
    {
        match byte {
            0x00 => Some(ExternKind::Func),
            0x01 => Some(ExternKind::Table),
            0x02 => Some(ExternKind::Memory),
            0x03 => Some(ExternKind::Global),
            _ => None,
        }
    }
}

/// What an import brings in. Only a function keeps a payload, its type index.
#[derive(Debug, Clone, Copy, PartialEq, Eq, Structural)]
pub enum ImportDesc {
    Func(u32),
    Table,
    Memory,
    Global,
}

impl DeepView for ImportDesc {
    type V = ImportDesc;

    open spec fn deep_view(&self) -> ImportDesc {
        *self
    }
}

/// One entry of the import section.
#[derive(Debug, Clone, PartialEq, Eq)]
pub struct Import {
    /// The module the import comes from.
    pub module: String,
    /// The name of the import within that module.
    pub name: String,
    pub desc: ImportDesc,
}

/// An import as a mathematical value.
#[verifier::ext_equal]
pub struct ImportModel {
    pub module: Seq<char>,
    pub name: Seq<char>,
    pub desc: ImportDesc,
}

impl DeepView for Import {
    type V = ImportModel;

    open spec fn deep_view(&self) -> ImportModel {
        ImportModel { module: self.module@, name: self.name@, desc: self.desc }
    }
}

/// One entry of the function section: the type index of a locally defined
/// function.
#[derive(Debug, Clone, Copy, PartialEq, Eq, Structural)]
pub struct Func {
    pub type_idx: u32,
}

impl DeepView for Func {
    type V = Func;

    open spec fn deep_view(&self) -> Func {
        *self
    }
}

/// One entry of the export section.
#[derive(Debug, Clone, PartialEq, Eq)]
pub struct Export {
    pub name: String,
    pub kind: ExternKind,
    /// The index of what is exported, in the index space of its kind.
    pub index: u32,
}

/// An export as a mathematical value.
#[verifier::ext_equal]
pub struct ExportModel {
    pub name: Seq<char>,
    pub kind: ExternKind,
    pub index: u32,
}

impl DeepView for Export {
    type V = ExportModel;

    open spec fn deep_view(&self) -> ExportModel {
        ExportModel { name: self.name@, kind: self.kind, index: self.index }
    }
}

} // verus!

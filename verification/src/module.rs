//! A decoded module and the questions it answers.

use crate::types::{
    Export, ExportModel, ExternKind, Func, FuncType, FuncTypeModel, Import, ImportDesc, ImportModel,
};
use vstd::prelude::*;
use vstd::string::*;

verus! {

/// A decoded WebAssembly module.
///
/// Code section bodies (locals and instruction bytes) are not decoded into it,
/// so `funcs` only carries each local function's type index.
#[derive(Debug, Clone, PartialEq)]
pub struct Module {
    /// The type section: every function signature the module declares or
    /// refers to, indexed by type index.
    pub types: Vec<FuncType>,
    /// The import section, in declaration order.
    pub imports: Vec<Import>,
    /// The function section: the type index of each locally defined
    /// function, in declaration order. Function indices count imported
    /// functions first, then these.
    pub funcs: Vec<Func>,
    /// The export section, in declaration order.
    pub exports: Vec<Export>,
    /// The start function's index, if the module declares one.
    pub start: Option<u32>,
    /// The name of each custom section, in the order it appeared. Custom
    /// section contents are not otherwise interpreted.
    pub custom_sections: Vec<String>,
    /// The id of each known, non-custom section that was skipped rather than
    /// parsed, in the order it appeared.
    pub skipped_sections: Vec<u8>,
}

/// A decoded module as a mathematical value.
#[verifier::ext_equal]
pub struct ModuleModel {
    pub types: Seq<FuncTypeModel>,
    pub imports: Seq<ImportModel>,
    pub funcs: Seq<Func>,
    pub exports: Seq<ExportModel>,
    pub start: Option<u32>,
    pub custom_sections: Seq<Seq<char>>,
    pub skipped_sections: Seq<u8>,
}

impl View for Module {
    type V = ModuleModel;

    open spec fn view(&self) -> ModuleModel {
        ModuleModel {
            types: self.types.deep_view(),
            imports: self.imports.deep_view(),
            funcs: self.funcs@,
            exports: self.exports.deep_view(),
            start: self.start,
            custom_sections: self.custom_sections.deep_view(),
            skipped_sections: self.skipped_sections@,
        }
    }
}

/// The type index of a function import; nothing for any other import.
pub open spec fn func_import(import: ImportModel) -> Option<u32> {
    match import.desc {
        ImportDesc::Func(type_idx) => Some(type_idx),
        _ => None,
    }
}

/// The type indices of the function imports among `imports`, in order.
pub open spec fn func_imports_among(imports: Seq<ImportModel>) -> Seq<u32> {
    imports.filter_map(|i: ImportModel| func_import(i))
}

/// One more import adds its type index if it is a function, and nothing
/// otherwise.
proof fn lemma_func_imports_take(imports: Seq<ImportModel>, i: int)
    requires
        0 <= i < imports.len(),
    ensures
        func_imports_among(imports.take(i + 1)) == match func_import(imports[i]) {
            Some(type_idx) => func_imports_among(imports.take(i)).push(type_idx),
            None => func_imports_among(imports.take(i)),
        },
{
    imports.lemma_filter_map_take_succ(|i: ImportModel| func_import(i), i);
}

/// The function imports of the first `n` imports come first.
proof fn lemma_func_imports_prefix(imports: Seq<ImportModel>, n: int)
    requires
        0 <= n <= imports.len(),
    ensures
        func_imports_among(imports.take(n)).len() <= func_imports_among(imports).len(),
        forall|j: int|
            0 <= j < func_imports_among(imports.take(n)).len() ==> #[trigger] func_imports_among(
                imports.take(n),
            )[j] == func_imports_among(imports)[j],
    decreases imports.len() - n,
{
    if n < imports.len() {
        lemma_func_imports_prefix(imports, n + 1);
        lemma_func_imports_take(imports, n);
        let shorter = func_imports_among(imports.take(n));
        let longer = func_imports_among(imports.take(n + 1));
        assert forall|j: int| 0 <= j < shorter.len() implies #[trigger] shorter[j]
            == func_imports_among(imports)[j] by {
            assert(longer[j] == shorter[j]);
        }
    } else {
        assert(imports.take(n) =~= imports);
    }
}

impl ModuleModel {
    /// The module that declares nothing.
    pub open spec fn empty() -> ModuleModel {
        ModuleModel {
            types: Seq::empty(),
            imports: Seq::empty(),
            funcs: Seq::empty(),
            exports: Seq::empty(),
            start: None,
            custom_sections: Seq::empty(),
            skipped_sections: Seq::empty(),
        }
    }

    /// Whether every type index that an import or a local function names is
    /// the index of a type.
    pub open spec fn well_formed(self) -> bool {
        &&& forall|i: int|
            0 <= i < self.imports.len() ==> (func_import(#[trigger] self.imports[i]) matches Some(
                type_idx,
            ) ==> type_idx < self.types.len())
        &&& forall|i: int|
            0 <= i < self.funcs.len() ==> (#[trigger] self.funcs[i]).type_idx < self.types.len()
    }

    /// The type indices of the imported functions, in declaration order.
    pub open spec fn func_imports(self) -> Seq<u32> {
        func_imports_among(self.imports)
    }

    /// The function index space: the type index of every function, imported
    /// functions first, then local ones.
    pub open spec fn func_space(self) -> Seq<u32> {
        self.func_imports() + self.funcs.map_values(|f: Func| f.type_idx)
    }

    /// The signature of the function at `index` in the function index space.
    pub open spec fn func_type(self, index: int) -> Option<FuncTypeModel> {
        if 0 <= index < self.func_space().len() && self.func_space()[index] < self.types.len() {
            Some(self.types[self.func_space()[index] as int])
        } else {
            None
        }
    }

    /// Whether the export at `k` is a function exported under `name`.
    pub open spec fn exports_func_at(self, k: int, name: Seq<char>) -> bool {
        self.exports[k].kind == ExternKind::Func && self.exports[k].name == name
    }

    /// The index of the first function exported under `name`.
    pub open spec fn export_func(self, name: Seq<char>) -> Option<u32>
        decreases self.exports.len(),
    {
        if self.exports.len() == 0 {
            None
        } else {
            let last = self.exports.last();
            let earlier = ModuleModel { exports: self.exports.drop_last(), ..self };
            match earlier.export_func(name) {
                Some(index) => Some(index),
                None => if last.kind == ExternKind::Func && last.name == name {
                    Some(last.index)
                } else {
                    None
                },
            }
        }
    }

    /// One line per export, in declaration order.
    pub open spec fn descriptions(self) -> Seq<Seq<char>> {
        self.exports.map_values(|e: ExportModel| self.describe(e))
    }

    /// The line that describes an export.
    pub open spec fn describe(self, export: ExportModel) -> Seq<char> {
        match export.kind {
            ExternKind::Func => match self.func_type(export.index as int) {
                Some(signature) => "func "@ + export.name + ": "@ + signature.text(),
                None => "func "@ + export.name + ": <type index out of range>"@,
            },
            ExternKind::Table => "table "@ + export.name,
            ExternKind::Memory => "memory "@ + export.name,
            ExternKind::Global => "global "@ + export.name,
        }
    }
}

/// The function that a name exports is the first function export of that name:
/// no export before it is a function of that name. Other exports of the name
/// do not count, nor do later ones.
pub proof fn law_first_export_counts(m: ModuleModel, name: Seq<char>, k: int)
    requires
        0 <= k < m.exports.len(),
        m.exports[k].kind == ExternKind::Func,
        m.exports[k].name == name,
        forall|j: int|
            0 <= j < k ==> (#[trigger] m.exports[j]).kind != ExternKind::Func || m.exports[j].name
                != name,
    ensures
        m.export_func(name) == Some(m.exports[k].index),
    decreases m.exports.len(),
{
    let earlier = ModuleModel { exports: m.exports.drop_last(), ..m };
    if k < m.exports.len() - 1 {
        law_first_export_counts(earlier, name, k);
    } else {
        law_no_such_export(earlier, name);
    }
}

/// A name that no function is exported under names none.
pub proof fn law_no_such_export(m: ModuleModel, name: Seq<char>)
    requires
        forall|j: int|
            0 <= j < m.exports.len() ==> (#[trigger] m.exports[j]).kind != ExternKind::Func
                || m.exports[j].name != name,
    ensures
        m.export_func(name) is None,
    decreases m.exports.len(),
{
    if m.exports.len() > 0 {
        let earlier = ModuleModel { exports: m.exports.drop_last(), ..m };
        law_no_such_export(earlier, name);
        let _ = m.exports[m.exports.len() - 1];
    }
}

/// Imported functions occupy the low end of the function index space, and the
/// locally defined ones follow, each in declaration order.
pub proof fn law_imported_functions_come_first(m: ModuleModel, index: int)
    requires
        0 <= index < m.func_imports().len() + m.funcs.len(),
        m.well_formed(),
    ensures
        ({
            let imported = m.func_imports().len();
            m.func_type(index) == Some(
                m.types[if index < imported {
                    m.func_imports()[index] as int
                } else {
                    m.funcs[index - imported].type_idx as int
                }],
            )
        }),
{
    if index < m.func_imports().len() {
        let pick = |i: ImportModel| func_import(i);
        let t = m.func_imports()[index];
        assert(m.imports.filter_map(pick).contains(t));
        m.imports.lemma_filter_map_contains(pick, t);
        let import = choose|i: ImportModel| #[trigger] m.imports.contains(i) && pick(i) == Some(t);
        let k = choose|k: int| 0 <= k < m.imports.len() && m.imports[k] == import;
        assert(func_import(m.imports[k]) == Some(t));
        assert(m.func_space()[index] == t);
    } else {
        assert(m.func_space()[index] == m.funcs[index - m.func_imports().len()].type_idx);
    }
}

impl Default for Module {
    /// The module that declares nothing.
    fn default() -> (res: Module)
        ensures
            res@ == ModuleModel::empty(),
    {
        let res: Module = Module {
            types: Vec::new(),
            imports: Vec::new(),
            funcs: Vec::new(),
            exports: Vec::new(),
            start: None,
            custom_sections: Vec::new(),
            skipped_sections: Vec::new(),
        };
        assert(res@ =~= ModuleModel::empty());
        res
    }
}

impl Module {
    /// How many entries at the start of the function index space are
    /// imports rather than locally defined functions.
    pub fn imported_func_count(&self) -> (res: usize)
        ensures
            res == self@.func_imports().len(),
    {
        let mut count: usize = 0;
        let ghost imports = self@.imports;
        for i in 0..self.imports.len()
            invariant
                imports == self@.imports,
                imports.len() == self.imports@.len(),
                count == func_imports_among(imports.take(i as int)).len(),
                count <= i,
        {
            proof {
                lemma_func_imports_take(imports, i as int);
            }
            if let ImportDesc::Func(_) = self.imports[i].desc {
                count = count + 1;
            }
        }
        assert(imports.take(imports.len() as int) =~= imports);
        count
    }

    /// The type index of the `n`th imported function.
    fn nth_func_import(&self, n: usize) -> (res: Option<u32>)
        ensures
            match res {
                Some(type_idx) => n < self@.func_imports().len() && type_idx
                    == self@.func_imports()[n as int],
                None => n >= self@.func_imports().len(),
            },
    {
        let mut count: usize = 0;
        let ghost imports = self@.imports;
        for i in 0..self.imports.len()
            invariant
                imports == self@.imports,
                imports.len() == self.imports@.len(),
                count == func_imports_among(imports.take(i as int)).len(),
                count <= i,
                count <= n,
        {
            proof {
                lemma_func_imports_take(imports, i as int);
            }
            if let ImportDesc::Func(type_idx) = self.imports[i].desc {
                if count == n {
                    proof {
                        lemma_func_imports_prefix(imports, i + 1);
                        assert(func_imports_among(imports.take(i + 1))[n as int] == type_idx);
                    }
                    return Some(type_idx);
                }
                count = count + 1;
            }
        }
        assert(imports.take(imports.len() as int) =~= imports);
        None
    }

    /// The signature of the function at `index` in the function index space
    /// (imported functions first, then local ones), if `index` names a
    /// function and its type index is in range.
    pub fn func_type(&self, index: u32) -> (res: Option<&FuncType>)
        ensures
            match self@.func_type(index as int) {
                Some(signature) => res matches Some(t) && t.deep_view() == signature,
                None => res is None,
            },
    {
        let index: usize = index as usize;
        let imported: usize = self.imported_func_count();
        let type_idx: u32 = if index < imported {
            self.nth_func_import(index)?
        } else {
            if index - imported >= self.funcs.len() {
                return None;
            }
            self.funcs[index - imported].type_idx
        };
        assert(type_idx == self@.func_space()[index as int]);
        if type_idx as usize >= self.types.len() {
            return None;
        }
        Some(&self.types[type_idx as usize])
    }

    /// The function index exported under `name`, if `name` names a function
    /// export; the first such export, if there are several.
    pub fn export_func(&self, name: &str) -> (res: Option<u32>)
        ensures
            res == self@.export_func(name@),
            match res {
                Some(index) => exists|k: int|
                    0 <= k < self@.exports.len() && #[trigger] self@.exports_func_at(k, name@)
                        && index == self@.exports[k].index && forall|j: int|
                        0 <= j < k ==> !self@.exports_func_at(j, name@),
                None => forall|k: int|
                    0 <= k < self@.exports.len() ==> !self@.exports_func_at(k, name@),
            },
    {
        let wanted: String = name.to_owned();
        for k in 0..self.exports.len()
            invariant
                wanted@ == name@,
                forall|j: int| 0 <= j < k ==> !self@.exports_func_at(j, name@),
        {
            let export: &Export = &self.exports[k];
            assert(self@.exports[k as int] == export.deep_view());
            if export.kind == ExternKind::Func && export.name == wanted {
                assert(self@.exports_func_at(k as int, name@));
                proof {
                    assert forall|j: int| 0 <= j < k implies (#[trigger] self@.exports[j]).kind
                        != ExternKind::Func || self@.exports[j].name != name@ by {
                        assert(!self@.exports_func_at(j, name@));
                    }
                    law_first_export_counts(self@, name@, k as int);
                }
                return Some(export.index);
            }
        }
        proof {
            assert forall|j: int| 0 <= j < self@.exports.len() implies (
            #[trigger] self@.exports[j]).kind != ExternKind::Func || self@.exports[j].name
                != name@ by {
                assert(!self@.exports_func_at(j, name@));
            }
            law_no_such_export(self@, name@);
        }
        None
    }

    /// The line that describes an export.
    fn describe_export(&self, export: &Export) -> (res: String)
        ensures
            res@ == self@.describe(export.deep_view()),
    {
        match export.kind {
            ExternKind::Func => {
                let mut text: String = String::from_str("func ");
                text.append(export.name.as_str());
                match self.func_type(export.index) {
                    Some(signature) => {
                        text.append(": ");
                        text.append(signature.to_string().as_str());
                    },
                    None => {
                        text.append(": <type index out of range>");
                    },
                }
                text
            },
            ExternKind::Table => {
                let mut text: String = String::from_str("table ");
                text.append(export.name.as_str());
                text
            },
            ExternKind::Memory => {
                let mut text: String = String::from_str("memory ");
                text.append(export.name.as_str());
                text
            },
            ExternKind::Global => {
                let mut text: String = String::from_str("global ");
                text.append(export.name.as_str());
                text
            },
        }
    }

    /// One human-readable line per export, in declaration order, e.g.
    /// `"func square: (i32) -> i32"`.
    pub fn describe_exports(&self) -> (res: Vec<String>)
        ensures
            res.deep_view() == self@.descriptions(),
    {
        let mut lines: Vec<String> = Vec::new();
        for k in 0..self.exports.len()
            invariant
                lines@.len() == k,
                forall|j: int|
                    0 <= j < k ==> (#[trigger] lines@[j])@ == self@.describe(self@.exports[j]),
        {
            lines.push(self.describe_export(&self.exports[k]));
        }
        assert(lines.deep_view() =~= self@.descriptions());
        lines
    }
}

} // verus!

//! What holds of a module's answers.

use crate::grammar;
use crate::module;
use crate::module::{Module, ModuleModel};
use crate::parse_laws;
use crate::types::{ExternKind, Func, FuncTypeModel, ImportDesc, ImportModel};
use vstd::prelude::*;

verus! {

/// The module with one more import.
pub open spec fn with_import(m: ModuleModel, import: ImportModel) -> ModuleModel {
    ModuleModel { imports: m.imports.push(import), ..m }
}

/// The module with one more locally defined function.
pub open spec fn with_func(m: ModuleModel, func: Func) -> ModuleModel {
    ModuleModel { funcs: m.funcs.push(func), ..m }
}

/// A module without imports has no imported functions. One more import adds
/// its type index at the end if it is a function, and nothing otherwise,
/// however many imports there are already.
pub proof fn law_imported_functions_grow(m: ModuleModel, import: ImportModel)
    ensures
        m.imports.len() == 0 ==> m.func_imports().len() == 0,
        with_import(m, import).func_imports() == match import.desc {
            ImportDesc::Func(type_idx) => m.func_imports().push(type_idx),
            _ => m.func_imports(),
        },
{
    let more = m.imports.push(import);
    let pick = |i: ImportModel| module::func_import(i);
    assert(more.take(m.imports.len() as int) =~= m.imports);
    assert(more.take(more.len() as int) =~= more);
    more.lemma_filter_map_take_succ(pick, m.imports.len() as int);
    if m.imports.len() == 0 {
        reveal(Seq::filter_map);
        assert(m.imports =~= Seq::empty());
    }
}

/// Whether these are all the positions at which the imports have functions, in
/// order.
pub open spec fn function_positions(m: ModuleModel, positions: Seq<int>) -> bool {
    &&& forall|i: int, j: int|
        0 <= i < j < positions.len() ==> #[trigger] positions[i] < #[trigger] positions[j]
    &&& forall|j: int|
        0 <= j < positions.len() ==> 0 <= #[trigger] positions[j] < m.imports.len()
            && m.imports[positions[j]].desc is Func
    &&& forall|k: int|
        0 <= k < m.imports.len() && (#[trigger] m.imports[k]).desc is Func
            ==> positions.contains(k)
}

/// The imported functions are all of the function imports and nothing else, in
/// declaration order.
pub proof fn law_imported_functions_are_the_function_imports(m: ModuleModel) -> (positions: Seq<int>)
    ensures
        function_positions(m, positions),
        m.func_imports().len() == positions.len(),
        forall|j: int|
            0 <= j < positions.len() ==> m.imports[#[trigger] positions[j]].desc
                == ImportDesc::Func(m.func_imports()[j]),
    decreases m.imports.len(),
{
    if m.imports.len() == 0 {
        law_imported_functions_grow(m, arbitrary());
        Seq::empty()
    } else {
        let last = m.imports.last();
        let before = ModuleModel { imports: m.imports.drop_last(), ..m };
        let earlier = law_imported_functions_are_the_function_imports(before);
        assert(before.imports.push(last) =~= m.imports);
        assert(with_import(before, last) =~= m);
        law_imported_functions_grow(before, last);
        let end = before.imports.len() as int;
        let positions = if last.desc is Func {
            earlier.push(end)
        } else {
            earlier
        };
        assert forall|j: int| 0 <= j < positions.len() implies 0 <= #[trigger] positions[j]
            < m.imports.len() && m.imports[positions[j]].desc is Func by {
            if j < earlier.len() {
                let k = earlier[j];
                assert(before.imports[k] == m.imports[k]);
            }
        }
        assert forall|j: int| 0 <= j < positions.len() implies m.imports[
            #[trigger] positions[j]].desc == ImportDesc::Func(m.func_imports()[j]) by {
            if j < earlier.len() {
                let k = earlier[j];
                assert(before.imports[k] == m.imports[k]);
                assert(before.imports[earlier[j]].desc == ImportDesc::Func(
                    before.func_imports()[j],
                ));
            }
        }
        assert forall|k: int|
            0 <= k < m.imports.len() && (#[trigger] m.imports[k]).desc is Func implies
            positions.contains(k) by {
            if k < end {
                assert(before.imports[k] == m.imports[k]);
                let j = choose|j: int| 0 <= j < earlier.len() && earlier[j] == k;
                assert(positions[j] == k);
            } else {
                assert(positions[earlier.len() as int] == k);
            }
        }
        positions
    }
}

/// The type at an index, if there is one.
pub open spec fn type_named(m: ModuleModel, type_idx: u32) -> Option<FuncTypeModel> {
    if type_idx < m.types.len() {
        Some(m.types[type_idx as int])
    } else {
        None
    }
}

/// The signature at an index of the function index space: that of an imported
/// function below their number, that of a local one after them, and none past
/// the last. A type index out of range gives none either.
pub proof fn law_func_type_exactly(m: ModuleModel, index: int)
    ensures
        ({
            let imported = m.func_imports().len();
            m.func_type(index) == if 0 <= index < imported {
                type_named(m, m.func_imports()[index])
            } else if imported <= index < imported + m.funcs.len() {
                type_named(m, m.funcs[index - imported].type_idx)
            } else {
                None
            }
        }),
{
}

/// One more imported function moves every local function up by one and leaves
/// the imported ones where they are; any other import changes nothing.
pub proof fn law_imports_move_local_functions(m: ModuleModel, import: ImportModel, index: int)
    requires
        0 <= index,
    ensures
        ({
            let imported = m.func_imports().len();
            let more = with_import(m, import);
            match import.desc {
                ImportDesc::Func(type_idx) => more.func_type(index) == if index < imported {
                    m.func_type(index)
                } else if index == imported {
                    type_named(m, type_idx)
                } else {
                    m.func_type(index - 1)
                },
                _ => more.func_type(index) == m.func_type(index),
            }
        }),
{
    law_imported_functions_grow(m, import);
}

/// One more local function has the next index, and the others keep theirs.
pub proof fn law_local_functions_come_last(m: ModuleModel, func: Func, index: int)
    requires
        0 <= index,
    ensures
        with_func(m, func).func_type(index) == if index == m.func_imports().len() + m.funcs.len() {
            type_named(m, func.type_idx)
        } else {
            m.func_type(index)
        },
{
}

/// There is one line per export, in declaration order. The line of a function
/// shows the signature of the function that its index names, and says that
/// there is none exactly if there is none; any other line is the kind and the
/// name.
pub proof fn law_export_lines(m: ModuleModel, k: int)
    requires
        0 <= k < m.exports.len(),
    ensures
        m.descriptions().len() == m.exports.len(),
        ({
            let e = m.exports[k];
            let line = m.descriptions()[k];
            match e.kind {
                ExternKind::Func => match m.func_type(e.index as int) {
                    Some(signature) => line == "func "@ + e.name + ": "@ + signature.text(),
                    None => line == "func "@ + e.name + ": <type index out of range>"@,
                },
                ExternKind::Table => line == "table "@ + e.name,
                ExternKind::Memory => line == "memory "@ + e.name,
                ExternKind::Global => line == "global "@ + e.name,
            }
        }),
{
}

/// In a parsed module, the export of a function that exists, imported or
/// local, is described with the signature of that very function.
pub proof fn law_parsed_exports_show_signatures(bytes: Seq<u8>, k: int)
    ensures
        grammar::module(bytes) matches Ok(m) ==> (0 <= k < m.exports.len() && m.exports[k].kind
            == ExternKind::Func && m.exports[k].index < m.func_imports().len() + m.funcs.len()
            ==> {
            let e = m.exports[k];
            let imported = m.func_imports().len();
            let type_idx = if e.index < imported {
                m.func_imports()[e.index as int]
            } else {
                m.funcs[e.index - imported].type_idx
            };
            &&& type_idx < m.types.len()
            &&& m.descriptions()[k] == "func "@ + e.name + ": "@ + m.types[type_idx as int].text()
        }),
{
    parse_laws::law_parsed_type_indices_in_range(bytes);
    if let Ok(m) = grammar::module(bytes) {
        if 0 <= k < m.exports.len() && m.exports[k].kind == ExternKind::Func && m.exports[k].index
            < m.func_imports().len() + m.funcs.len() {
            let e = m.exports[k];
            parse_laws::law_every_parsed_function_has_a_type(bytes, e.index as int);
            law_func_type_exactly(m, e.index as int);
            law_export_lines(m, k);
        }
    }
}

/// The module that declares nothing has nothing of anything.
pub proof fn law_empty_module_declares_nothing()
    ensures
        ({
            let m = ModuleModel::empty();
            &&& m.types.len() == 0
            &&& m.imports.len() == 0
            &&& m.funcs.len() == 0
            &&& m.exports.len() == 0
            &&& m.start is None
            &&& m.custom_sections.len() == 0
            &&& m.skipped_sections.len() == 0
        }),
{
}

/// The mathematical value of a module keeps every entry of every field.
pub proof fn law_model_keeps_everything(m: Module)
    ensures
        m@.types.len() == m.types@.len(),
        forall|i: int|
            0 <= i < m.types@.len() ==> {
                &&& (#[trigger] m@.types[i]).params == m.types@[i].params@
                &&& m@.types[i].results == m.types@[i].results@
            },
        m@.imports.len() == m.imports@.len(),
        forall|i: int|
            0 <= i < m.imports@.len() ==> {
                &&& (#[trigger] m@.imports[i]).module == m.imports@[i].module@
                &&& m@.imports[i].name == m.imports@[i].name@
                &&& m@.imports[i].desc == m.imports@[i].desc
            },
        m@.funcs == m.funcs@,
        m@.exports.len() == m.exports@.len(),
        forall|i: int|
            0 <= i < m.exports@.len() ==> {
                &&& (#[trigger] m@.exports[i]).name == m.exports@[i].name@
                &&& m@.exports[i].kind == m.exports@[i].kind
                &&& m@.exports[i].index == m.exports@[i].index
            },
        m@.start == m.start,
        m@.custom_sections.len() == m.custom_sections@.len(),
        forall|i: int|
            0 <= i < m.custom_sections@.len() ==> #[trigger] m@.custom_sections[i]
                == m.custom_sections@[i]@,
        m@.skipped_sections == m.skipped_sections@,
{
}

} // verus!

//! A WebAssembly binary parser in safe Rust with zero dependencies, with its
//! behaviour stated in contracts and proved.
//!
//! `parse` decodes a binary into a `Module`, and `decode` decodes the bytes of
//! a function body into instructions. `grammar` says what the binary format
//! is, and the contracts of the parser speak of it; `leb` and `instr` say the
//! same of integers and of instructions. `spelling` says which bytes spell
//! what, and that exactly those are read; `fault_laws` says why anything else
//! is not. `section_laws`, `parse_laws` and `encode` hold what is proved of
//! whole binaries, `instr_laws` of function bodies, `module_laws` of a module's
//! answers, and `text_laws` of what is rendered as text.

pub mod encode;
pub mod fault;
pub mod fault_laws;
pub mod grammar;
pub mod instr;
pub mod instr_laws;
pub mod leb;
pub mod module;
pub mod module_laws;
pub mod parse;
pub mod parse_laws;
pub mod section_laws;
pub mod spelling;
pub mod text;
pub mod text_laws;
pub mod types;

pub use instr::{decode, BlockType, DecodeError, DecodeErrorKind, Instr};
pub use parse::{parse, Module, ParseError, ParseErrorKind};
pub use types::{Export, ExternKind, Func, FuncType, Import, ImportDesc, ValType};

# wasm_binary

A WebAssembly binary parser in safe Rust with zero dependencies. Its behaviour
is stated in contracts, and Verus proves that the code meets them.

- `parse` decodes a binary into a `Module`: the type, import, function, export
  and start sections, the names of the custom sections, and the ids of the
  sections that are skipped.
- `decode` decodes the bytes of a function body into a flat sequence of
  instructions.

A signature reads `(i32) -> i32`; `Module::describe_exports` gives one line per
export, such as `func square: (i32) -> i32`. The body of `square` is
`local.get 0`, `local.get 0`, `i32.mul`, `end`.

## Layout

| Path | Holds |
| --- | --- |
| `src/leb.rs` | LEB128 integers, as mathematics and as readers |
| `src/types.rs` | value types, signatures, imports, functions, exports |
| `src/module.rs` | `Module` and the questions it answers |
| `src/grammar.rs` | the binary format as mathematics |
| `src/parse.rs` | the parser |
| `src/instr.rs` | instructions and their decoder |
| `src/encode.rs` | a binary for every module, and that it parses back |
| `src/parse_laws.rs`, `src/instr_laws.rs` | what holds of parsing and decoding as a whole |
| `src/text.rs`, `src/fault.rs` | text, and faults with their offsets |
| `tests/` | tests on concrete bytes |
| `app/` | runtime values, and the library's errors as standard errors |

The one thing taken on trust is that `std::str::from_utf8` accepts exactly the
valid UTF-8 encodings and returns the characters they encode.

use wasm_binary::types::{FuncType, ValType};

#[test]
fn decodes_val_type_bytes() {
    assert_eq!(ValType::from_byte(0x7F), Some(ValType::I32));
    assert_eq!(ValType::from_byte(0x7E), Some(ValType::I64));
    assert_eq!(ValType::from_byte(0x7D), Some(ValType::F32));
    assert_eq!(ValType::from_byte(0x7C), Some(ValType::F64));
    assert_eq!(ValType::from_byte(0x70), None); // funcref, not accepted
    assert_eq!(ValType::from_byte(0x00), None);
}

#[test]
fn displays_signatures_like_the_readme_examples() {
    let square = FuncType { params: vec![ValType::I32], results: vec![ValType::I32] };
    assert_eq!(square.to_string(), "(i32) -> i32");

    let no_args_no_result = FuncType { params: vec![], results: vec![] };
    assert_eq!(no_args_no_result.to_string(), "() -> ()");

    let two_params = FuncType { params: vec![ValType::I32, ValType::I64], results: vec![ValType::F64] };
    assert_eq!(two_params.to_string(), "(i32, i64) -> f64");

    let multi_result = FuncType { params: vec![], results: vec![ValType::I32, ValType::I32] };
    assert_eq!(multi_result.to_string(), "() -> (i32, i32)");
}

use cachelito_core::expansion::{choose_insert_call, is_result_type, InsertCall};

#[test]
fn insert_call_follows_memory_and_result() {
    assert_eq!(choose_insert_call(false, false), InsertCall::Insert);
    assert_eq!(choose_insert_call(true, false), InsertCall::InsertWithMemory);
    assert_eq!(choose_insert_call(false, true), InsertCall::InsertResult);
    assert_eq!(choose_insert_call(true, true), InsertCall::InsertResultWithMemory);
}

#[test]
fn result_types_are_recognised_as_written() {
    assert!(is_result_type("Result<i32, String>"));
    assert!(is_result_type("Result < u8 , E >"));
    assert!(is_result_type("std :: result :: Result < T , E >"));
    assert!(!is_result_type("Option<Result<i32, String>>"));
    assert!(!is_result_type("io::Result<u8>"));
    assert!(!is_result_type("Results<u8>"));
    assert!(!is_result_type(""));
}

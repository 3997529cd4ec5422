use cachelito_core::memory_estimator::MemoryEstimator;
use std::mem::size_of;

#[test]
fn test_string_memory() {
    let s = String::from("hello");
    let expected = std::mem::size_of::<String>() + s.capacity();
    assert_eq!(s.estimate_memory(), expected);
}

#[test]
fn test_vec_memory() {
    let v_primitives = vec![1i32, 2, 3, 4, 5];
    let base = std::mem::size_of::<Vec<i32>>();
    let buffer = v_primitives.capacity() * std::mem::size_of::<i32>();
    assert_eq!(v_primitives.estimate_memory(), base + buffer);

    let v_strings = vec![String::from("hello"), String::from("world")];
    let base_str = size_of::<Vec<String>>();
    let buffer_str = v_strings.capacity() * size_of::<String>();
    let heap_extras: usize = v_strings.iter().map(|s| s.capacity()).sum();
    assert_eq!(v_strings.estimate_memory(), base_str + buffer_str + heap_extras);

    let v_empty: Vec<i32> = Vec::new();
    assert_eq!(v_empty.estimate_memory(), std::mem::size_of::<Vec<i32>>());

    let v_nested = vec![vec![1, 2], vec![3, 4, 5]];
    let base_nested = size_of::<Vec<Vec<i32>>>();
    let buffer_nested = v_nested.capacity() * size_of::<Vec<i32>>();
    let heap_nested: usize = v_nested
        .iter()
        .map(|inner| inner.capacity() * std::mem::size_of::<i32>())
        .sum();
    assert_eq!(v_nested.estimate_memory(), base_nested + buffer_nested + heap_nested);
}

#[test]
fn test_vec_with_capacity() {
    let mut v = Vec::with_capacity(100);
    v.push(1i32);
    v.push(2i32);

    let base = std::mem::size_of::<Vec<i32>>();
    let buffer = 100 * std::mem::size_of::<i32>();
    assert_eq!(v.estimate_memory(), base + buffer);
    assert!(v.estimate_memory() > base + 2 * std::mem::size_of::<i32>());
}

#[test]
fn test_vec_complex_types() {
    let v = vec![
        (String::from("key1"), vec![1, 2, 3]),
        (String::from("key2"), vec![4, 5, 6, 7, 8]),
    ];

    let base = std::mem::size_of::<Vec<(String, Vec<i32>)>>();
    let buffer = v.capacity() * std::mem::size_of::<(String, Vec<i32>)>();

    let heap_extras: usize = v
        .iter()
        .map(|(s, vec)| s.capacity() + vec.capacity() * std::mem::size_of::<i32>())
        .sum();

    assert_eq!(v.estimate_memory(), base + buffer + heap_extras);
}

#[test]
fn test_option_memory() {
    let some_int = Some(42i32);
    let none: Option<i32> = None;

    assert_eq!(some_int.estimate_memory(), std::mem::size_of::<Option<i32>>());
    assert_eq!(none.estimate_memory(), std::mem::size_of::<Option<i32>>());

    let some_string = Some(String::from("hello"));
    let expected = std::mem::size_of::<Option<String>>() + some_string.as_ref().unwrap().capacity();
    assert_eq!(some_string.estimate_memory(), expected);
}

#[derive(Clone)]
struct MyStruct {
    name: String,
    data: Vec<u8>,
}

impl MemoryEstimator for MyStruct {
    fn estimate_memory(&self) -> usize {
        std::mem::size_of::<Self>() + self.name.capacity() + self.data.capacity()
    }
}

#[test]
fn test_custom_struct() {
    let s = MyStruct { name: "test".to_string(), data: vec![1, 2, 3] };

    let expected = std::mem::size_of::<MyStruct>() + s.name.capacity() + s.data.capacity();
    assert_eq!(s.estimate_memory(), expected);
}

#[test]
fn test_tuple_memory() {
    let tuple2 = (42i32, true);
    assert_eq!(tuple2.estimate_memory(), std::mem::size_of::<(i32, bool)>());

    let tuple_heap = (42i32, String::from("hello"));
    let expected = std::mem::size_of::<(i32, String)>() + tuple_heap.1.capacity();
    assert_eq!(tuple_heap.estimate_memory(), expected);

    let tuple3 = (42i32, String::from("test"), vec![1u8, 2, 3]);
    let expected = std::mem::size_of::<(i32, String, Vec<u8>)>()
        + tuple3.1.capacity()
        + tuple3.2.capacity() * std::mem::size_of::<u8>();
    assert_eq!(tuple3.estimate_memory(), expected);
}

#[test]
fn integer_and_bool_sizes_are_their_own() {
    assert_eq!(42i32.estimate_memory(), std::mem::size_of::<i32>());
    assert_eq!(true.estimate_memory(), std::mem::size_of::<bool>());
    assert_eq!(7u64.estimate_memory(), 8);
    assert_eq!('x'.estimate_memory(), 4);
    assert_eq!(().estimate_memory(), 0);
}

#[test]
fn result_and_box_count_what_they_hold() {
    let ok: Result<String, i32> = Ok(String::with_capacity(40));
    assert_eq!(ok.estimate_memory(), size_of::<Result<String, i32>>() + 40);
    let err: Result<String, i32> = Err(3);
    assert_eq!(err.estimate_memory(), size_of::<Result<String, i32>>());
    let b = Box::new(5u32);
    assert_eq!(b.estimate_memory(), size_of::<Box<u32>>() + 4);
}

#[test]
fn test_primitive_types() {
    assert_eq!(42i32.estimate_memory(), std::mem::size_of::<i32>());
    assert_eq!(true.estimate_memory(), std::mem::size_of::<bool>());
}

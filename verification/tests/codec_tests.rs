use graph_store::{vec_u32_to_u8, vec_u64_to_set_str, vec_u8_to_u32, StoreError};

#[test]
fn encode_exact_bytes() {
    let v: Vec<u32> = vec![1, 0x0102_0304];
    assert_eq!(vec_u32_to_u8(&v), vec![1, 0, 0, 0, 4, 3, 2, 1]);
}

#[test]
fn encode_empty() {
    let v: Vec<u32> = vec![];
    assert_eq!(vec_u32_to_u8(&v), Vec::<u8>::new());
}

#[test]
fn encode_length_is_four_per_element() {
    let v: Vec<u32> = vec![9, 8, 7];
    assert_eq!(vec_u32_to_u8(&v).len(), 12);
}

#[test]
fn decode_exact_values() {
    let b: Vec<u8> = vec![4, 3, 2, 1, 0xff, 0xff, 0xff, 0xff];
    assert_eq!(vec_u8_to_u32(&b).unwrap(), vec![0x0102_0304, u32::MAX]);
}

#[test]
fn decode_rejects_bad_length() {
    let b: Vec<u8> = vec![1, 2, 3];
    assert_eq!(vec_u8_to_u32(&b).unwrap_err(), StoreError::EncodingError);
    let b: Vec<u8> = vec![1, 2, 3, 4, 5];
    assert_eq!(vec_u8_to_u32(&b).unwrap_err(), StoreError::EncodingError);
}

#[test]
fn round_trip_various() {
    let cases: Vec<Vec<u32>> = vec![
        vec![],
        vec![0],
        vec![u32::MAX],
        vec![1, 2, 3, 4, 5],
        vec![0xdead_beef, 0, 42, 0x8000_0001],
    ];
    for v in cases {
        assert_eq!(vec_u8_to_u32(&vec_u32_to_u8(&v)).unwrap(), v);
    }
}

#[test]
fn set_str_exact() {
    assert_eq!(vec_u64_to_set_str(&vec![3, 7, 12]), "(3, 7, 12)");
    assert_eq!(vec_u64_to_set_str(&vec![5]), "(5)");
    assert_eq!(vec_u64_to_set_str(&vec![0, 10, 205]), "(0, 10, 205)");
    assert_eq!(vec_u64_to_set_str(&vec![u64::MAX]), "(18446744073709551615)");
}

#[test]
fn set_str_empty_is_bare_paren() {
    assert_eq!(vec_u64_to_set_str(&Vec::new()), "(");
}

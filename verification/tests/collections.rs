use bytevec::errors::{BVExpectedSize, ByteVecError};
use bytevec::{ByteDecodable, ByteEncodable};
use std::collections::{HashMap, HashSet};

fn expect_equal_to<T: std::fmt::Debug>(outcome: Result<T, ByteVecError>, n: usize, len: usize) {
    match outcome {
        Err(ByteVecError::BadSizeDecodeError { expected: BVExpectedSize::EqualTo(e), actual }) => {
            assert_eq!((e, actual), (n, len));
        }
        other => panic!("unexpected outcome: {:?}", other),
    }
}

fn expect_more_than<T: std::fmt::Debug>(outcome: Result<T, ByteVecError>, n: usize, len: usize) {
    match outcome {
        Err(ByteVecError::BadSizeDecodeError { expected: BVExpectedSize::MoreThan(e), actual }) => {
            assert_eq!((e, actual), (n, len));
        }
        other => panic!("unexpected outcome: {:?}", other),
    }
}

#[test]
fn test_string_is_its_utf8_bytes() {
    assert_eq!("abc".encode::<u32>().unwrap(), vec![97, 98, 99]);
    assert_eq!("España".to_string().encode::<u8>().unwrap(), "España".as_bytes().to_vec());
    assert_eq!("".encode::<u8>().unwrap(), Vec::<u8>::new());
    assert_eq!("José".get_size::<u8>(), Some(5));
    assert_eq!("José".to_string().get_size::<u32>(), Some(5));
    assert_eq!(String::decode::<u32>(&[97, 98, 99]).unwrap(), "abc");
    assert_eq!(String::decode::<u32>("日本語".as_bytes()).unwrap(), "日本語");
    assert_eq!(String::decode::<u32>(&[]).unwrap(), "");
}

#[test]
fn test_string_that_is_not_utf8() {
    assert!(matches!(
        String::decode::<u32>(&[0xFF, 0xFE]),
        Err(ByteVecError::StringDecodeUtf8Error(_))
    ));
    assert!(matches!(
        String::decode::<u32>(&[0x61, 0xC3]),
        Err(ByteVecError::StringDecodeUtf8Error(_))
    ));
}

#[test]
fn test_string_too_long_for_its_size_type() {
    let long = "x".repeat(256);
    assert_eq!(long.get_size::<u8>(), None);
    assert!(matches!(long.encode::<u8>(), Err(ByteVecError::OverflowError)));
    assert_eq!(long.get_size::<u16>(), Some(256));
    assert_eq!(long.encode::<u16>().unwrap().len(), 256);
    let longest = "x".repeat(255);
    assert_eq!(longest.get_size::<u8>(), Some(255));
    assert_eq!(longest.encode::<u8>().unwrap().len(), 255);
}

#[test]
fn test_list_of_text_layout() {
    let list = ["Rust", "Is", "Awesome!"];
    let bytes = list.encode::<u8>().unwrap();
    let mut expected = vec![3u8, 4, 2, 8];
    expected.extend_from_slice(b"RustIsAwesome!");
    assert_eq!(bytes, expected);
    assert_eq!(list.get_size::<u8>(), Some(18));
    let back = Vec::<String>::decode::<u8>(&bytes).unwrap();
    assert_eq!(back, list);
}

#[test]
fn test_list_of_text_at_four_bytes() {
    let list = ["Rust", "Is", "Awesome!"];
    let bytes = list.encode::<u32>().unwrap();
    let mut expected = vec![3u8, 0, 0, 0, 4, 0, 0, 0, 2, 0, 0, 0, 8, 0, 0, 0];
    expected.extend_from_slice(b"RustIsAwesome!");
    assert_eq!(bytes, expected);
    assert_eq!(list.get_size::<u32>(), Some(30));
    let back = Vec::<String>::decode::<u32>(&bytes).unwrap();
    assert_eq!(back, list);
}

#[test]
fn test_list_overflows_a_narrow_size() {
    let list: Vec<&str> = std::iter::repeat("Rust").take(256).collect();
    assert_eq!(list.get_size::<u8>(), None);
    assert!(matches!(list.encode::<u8>(), Err(ByteVecError::OverflowError)));
    let bytes = list.encode::<u32>().unwrap();
    assert_eq!(bytes.len(), 4 + 256 * 4 + 256 * 4);
    let back = Vec::<String>::decode::<u32>(&bytes).unwrap();
    assert_eq!(back, list);
}

#[test]
fn test_collection_size_is_checked_at_the_edge() {
    // 1 count byte, 50 length bytes, 204 body bytes: 255 in all.
    let mut list: Vec<String> = std::iter::repeat("abcd".to_string()).take(49).collect();
    list.push("12345678".to_string());
    assert_eq!(list.get_size::<u8>(), Some(255));
    assert_eq!(list.encode::<u8>().unwrap().len(), 255);
    assert_eq!(Vec::<String>::decode::<u8>(&list.encode::<u8>().unwrap()).unwrap(), list);
    list[49].push('9');
    assert_eq!(list.get_size::<u8>(), None);
    assert!(matches!(list.encode::<u8>(), Err(ByteVecError::OverflowError)));
    assert_eq!(list.get_size::<u16>(), Some(2 + 100 + 205));
}

#[test]
fn test_element_that_overflows_fails_the_collection() {
    let list = vec!["x".repeat(300)];
    assert_eq!(list.get_size::<u8>(), None);
    assert!(matches!(list.encode::<u8>(), Err(ByteVecError::OverflowError)));
}

#[test]
fn test_empty_collections() {
    let empty: Vec<u32> = Vec::new();
    assert_eq!(empty.encode::<u16>().unwrap(), vec![0, 0]);
    assert_eq!(empty.get_size::<u16>(), Some(2));
    assert_eq!(Vec::<u32>::decode::<u16>(&[0, 0]).unwrap(), empty);
    assert_eq!(HashSet::<u8>::decode::<u8>(&[0]).unwrap(), HashSet::new());
    assert_eq!(HashMap::<u8, u8>::decode::<u8>(&[0]).unwrap(), HashMap::new());
}

#[test]
fn test_nested_vectors() {
    let nested = vec![vec![1u16, 2], vec![], vec![3]];
    let bytes = nested.encode::<u8>().unwrap();
    assert_eq!(
        bytes,
        vec![3, 7, 1, 4, 2, 2, 2, 1, 0, 2, 0, 0, 1, 2, 3, 0]
    );
    assert_eq!(Vec::<Vec<u16>>::decode::<u8>(&bytes).unwrap(), nested);
}

#[test]
fn test_truncated_collection() {
    // count 2, lengths 1 and 2, but only two body bytes
    expect_equal_to(Vec::<String>::decode::<u8>(&[2, 1, 2, 97, 98]), 6, 5);
    // one body byte too many
    expect_equal_to(Vec::<String>::decode::<u8>(&[2, 1, 2, 97, 98, 99, 100]), 6, 7);
    // count 3 but only two length fields
    expect_more_than(Vec::<String>::decode::<u8>(&[3, 1, 2]), 4, 3);
    // no room for the count
    expect_more_than(Vec::<String>::decode::<u32>(&[3, 0, 0]), 4, 3);
    expect_more_than(Vec::<String>::decode::<u8>(&[]), 1, 0);
    // count present, lengths missing altogether
    expect_more_than(Vec::<u8>::decode::<u16>(&[2, 0]), 6, 2);
}

#[test]
fn test_collection_with_huge_counts() {
    expect_more_than(Vec::<u8>::decode::<u64>(&[0xFF; 8]), usize::MAX, 8);
    expect_more_than(HashSet::<u8>::decode::<u64>(&[0xFF; 8]), usize::MAX, 8);
    let mut bytes = vec![1u8, 0, 0, 0, 0, 0, 0, 0];
    bytes.extend_from_slice(&[0xFF; 8]);
    expect_equal_to(Vec::<u8>::decode::<u64>(&bytes), usize::MAX, 16);
    let mut bytes = vec![2u8, 0, 0, 0, 0, 0, 0, 0];
    bytes.extend_from_slice(&[0xFF; 16]);
    expect_equal_to(Vec::<u8>::decode::<u64>(&bytes), usize::MAX, 24);
}

#[test]
fn test_first_bad_element_fails_the_collection() {
    // two elements of one byte each, decoded as u16
    expect_equal_to(Vec::<u16>::decode::<u8>(&[2, 1, 1, 7, 8]), 2, 1);
    // the second element is no UTF-8
    assert!(matches!(
        Vec::<String>::decode::<u8>(&[2, 1, 1, 97, 0xFF]),
        Err(ByteVecError::StringDecodeUtf8Error(_))
    ));
    // the first fails on its frame before the second on its text
    expect_more_than(Vec::<(String,)>::decode::<u8>(&[2, 0, 1, 0xFF]), 1, 0);
}

#[test]
fn test_set_round_trip() {
    let set: HashSet<u32> = [5u32, 1, 900, 77].into_iter().collect();
    let bytes = set.encode::<u16>().unwrap();
    assert_eq!(bytes.len(), 2 + 4 * 2 + 4 * 4);
    assert_eq!(&bytes[..10], &[4, 0, 4, 0, 4, 0, 4, 0, 4, 0]);
    assert_eq!(set.get_size::<u16>(), Some(26));
    assert_eq!(HashSet::<u32>::decode::<u16>(&bytes).unwrap(), set);
    let as_list = Vec::<u32>::decode::<u16>(&bytes).unwrap();
    assert_eq!(as_list.len(), 4);
    assert_eq!(as_list.into_iter().collect::<HashSet<u32>>(), set);
}

#[test]
fn test_set_decoding_drops_repeats() {
    let set = HashSet::<u8>::decode::<u8>(&[3, 1, 1, 1, 9, 4, 9]).unwrap();
    let expected: HashSet<u8> = [9u8, 4].into_iter().collect();
    assert_eq!(set, expected);
}

#[test]
fn test_set_overflow() {
    let set: HashSet<u16> = (0..100u16).collect();
    assert_eq!(set.get_size::<u8>(), None);
    assert!(matches!(set.encode::<u8>(), Err(ByteVecError::OverflowError)));
    assert_eq!(set.get_size::<u16>(), Some(2 + 200 + 200));
}

#[test]
fn test_map_layout_and_round_trip() {
    let mut map = HashMap::new();
    map.insert(7u8, "seven".to_string());
    let bytes = map.encode::<u8>().unwrap();
    // one element of 8 bytes: the pair's two lengths, the key, the value
    assert_eq!(bytes, vec![1, 8, 1, 5, 7, b's', b'e', b'v', b'e', b'n']);
    assert_eq!(map.get_size::<u8>(), Some(10));
    assert_eq!(HashMap::<u8, String>::decode::<u8>(&bytes).unwrap(), map);
    map.insert(8, "eight".to_string());
    map.insert(9, "nine".to_string());
    let bytes = map.encode::<u32>().unwrap();
    assert_eq!(HashMap::<u8, String>::decode::<u32>(&bytes).unwrap(), map);
}

#[test]
fn test_map_decoding_keeps_the_last_of_two_equal_keys() {
    let bytes = vec![2u8, 4, 4, 1, 1, 7, 1, 1, 1, 7, 2];
    let map = HashMap::<u8, u8>::decode::<u8>(&bytes).unwrap();
    assert_eq!(map.len(), 1);
    assert_eq!(map[&7], 2);
}

#[test]
fn test_map_with_bad_pair() {
    // the pair's fields claim three bytes, the pair has two
    expect_equal_to(HashMap::<u8, u8>::decode::<u8>(&[1, 4, 1, 2, 7, 1]), 5, 4);
    expect_more_than(HashMap::<u8, u8>::decode::<u8>(&[1, 1, 1]), 2, 1);
}

#[test]
fn test_decode_max_on_collections() {
    let list = vec![1u8, 2, 3];
    let bytes = list.encode::<u8>().unwrap();
    assert_eq!(bytes.len(), 7);
    assert_eq!(Vec::<u8>::decode_max::<u8>(&bytes, 7).unwrap(), list);
    match Vec::<u8>::decode_max::<u8>(&bytes, 6) {
        Err(ByteVecError::BadSizeDecodeError {
            expected: BVExpectedSize::LessOrEqualThan(6),
            actual: 7,
        }) => {}
        other => panic!("unexpected outcome: {:?}", other),
    }
    // a buffer within the limit is still checked
    expect_equal_to(Vec::<u8>::decode_max::<u8>(&[1, 2, 0], 10), 4, 3);
}

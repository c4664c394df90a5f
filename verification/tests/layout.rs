use bytevec::endian::put_le;
use bytevec::errors::{BVExpectedSize, ByteVecError};
use bytevec::impls::collections::{collection_size, decode_items, encode_items};
use bytevec::impls::hashed::{map_items, set_items};
use bytevec::layout::{
    add_field_size, layout_size, pack_collection, pack_tuple, put_blocks, put_len,
    read_collection_frame, read_tuple_frame, size_of_len,
};
use std::collections::{HashMap, HashSet};

#[test]
fn test_put_le() {
    let mut out = vec![9u8];
    put_le(&mut out, 0x0102_0304, 4);
    assert_eq!(out, vec![9, 4, 3, 2, 1]);
    put_le(&mut out, 0x0102_0304, 2);
    assert_eq!(out, vec![9, 4, 3, 2, 1, 4, 3]);
    put_le(&mut out, 7, 0);
    assert_eq!(out.len(), 7);
    let mut wide = Vec::new();
    put_le(&mut wide, u64::MAX, 10);
    assert_eq!(wide, vec![255, 255, 255, 255, 255, 255, 255, 255, 0, 0]);
}

#[test]
fn test_size_of_len() {
    assert_eq!(size_of_len::<u8>(0), Some(0));
    assert_eq!(size_of_len::<u8>(255), Some(255));
    assert_eq!(size_of_len::<u8>(256), None);
    assert_eq!(size_of_len::<u16>(256), Some(256));
    assert_eq!(size_of_len::<u16>(65536), None);
    assert_eq!(size_of_len::<u64>(usize::MAX), Some(usize::MAX as u64));
}

#[test]
fn test_add_field_size() {
    assert_eq!(add_field_size::<u8>(Some(10), Some(20)), Some(31));
    assert_eq!(add_field_size::<u16>(Some(10), Some(20)), Some(32));
    assert_eq!(add_field_size::<u8>(Some(200), Some(54)), Some(255));
    assert_eq!(add_field_size::<u8>(Some(200), Some(55)), None);
    assert_eq!(add_field_size::<u8>(Some(200), Some(56)), None);
    assert_eq!(add_field_size::<u8>(None, Some(1)), None);
    assert_eq!(add_field_size::<u8>(Some(1), None), None);
}

#[test]
fn test_put_len() {
    let mut out = Vec::new();
    put_len::<u8>(&mut out, 5);
    put_len::<u16>(&mut out, 0x0102);
    put_len::<u32>(&mut out, 3);
    put_len::<u64>(&mut out, 4);
    assert_eq!(out, vec![5, 2, 1, 3, 0, 0, 0, 4, 0, 0, 0, 0, 0, 0, 0]);
}

#[test]
fn test_pack_tuple() {
    let bodies = vec![vec![32u8, 0, 0, 0], vec![97, 98, 99]];
    assert_eq!(layout_size::<u8>(&bodies), Some(9));
    assert_eq!(pack_tuple::<u8>(&bodies).unwrap(), vec![4, 3, 32, 0, 0, 0, 97, 98, 99]);
    assert_eq!(
        pack_tuple::<u16>(&bodies).unwrap(),
        vec![4, 0, 3, 0, 32, 0, 0, 0, 97, 98, 99]
    );
    let mut out = vec![1u8];
    put_blocks::<u8>(&mut out, &bodies);
    assert_eq!(out, vec![1, 4, 3, 32, 0, 0, 0, 97, 98, 99]);
    assert_eq!(pack_tuple::<u8>(&Vec::new()).unwrap(), Vec::<u8>::new());
    let long = vec![vec![0u8; 254]];
    assert_eq!(pack_tuple::<u8>(&long).unwrap().len(), 255);
    let longer = vec![vec![0u8; 255]];
    assert_eq!(layout_size::<u8>(&longer), None);
    assert!(matches!(pack_tuple::<u8>(&longer), Err(ByteVecError::OverflowError)));
}

#[test]
fn test_pack_collection() {
    let bodies = vec![vec![1u8], vec![], vec![2, 3]];
    assert_eq!(pack_collection::<u8>(&bodies).unwrap(), vec![3, 1, 0, 2, 1, 2, 3]);
    assert_eq!(pack_collection::<u8>(&Vec::new()).unwrap(), vec![0]);
    let long = vec![vec![0u8; 253]];
    assert_eq!(pack_collection::<u8>(&long).unwrap().len(), 255);
    let longer = vec![vec![0u8; 254]];
    assert!(matches!(pack_collection::<u8>(&longer), Err(ByteVecError::OverflowError)));
    assert_eq!(pack_collection::<u16>(&longer).unwrap().len(), 2 + 2 + 254);
}

#[test]
fn test_read_tuple_frame() {
    let bytes = [4u8, 3, 32, 0, 0, 0, 97, 98, 99];
    assert_eq!(read_tuple_frame::<u8>(&bytes, 2).unwrap(), vec![2, 6, 9]);
    assert_eq!(read_tuple_frame::<u8>(&[], 0).unwrap(), vec![0]);
    assert_eq!(read_tuple_frame::<u8>(&[0, 0, 0], 3).unwrap(), vec![3, 3, 3, 3]);
    assert!(matches!(
        read_tuple_frame::<u8>(&bytes, 3),
        Err(ByteVecError::BadSizeDecodeError { expected: BVExpectedSize::EqualTo(42), actual: 9 })
    ));
    assert!(matches!(
        read_tuple_frame::<u16>(&bytes[..3], 2),
        Err(ByteVecError::BadSizeDecodeError { expected: BVExpectedSize::MoreThan(4), actual: 3 })
    ));
    assert!(matches!(
        read_tuple_frame::<u8>(&[1], 0),
        Err(ByteVecError::BadSizeDecodeError { expected: BVExpectedSize::EqualTo(0), actual: 1 })
    ));
    assert!(matches!(
        read_tuple_frame::<u8>(&[1, 2], usize::MAX),
        Err(ByteVecError::BadSizeDecodeError { expected: BVExpectedSize::MoreThan(3), actual: 2 })
    ));
}

#[test]
fn test_read_collection_frame() {
    let bytes = [3u8, 1, 0, 2, 1, 2, 3];
    assert_eq!(read_collection_frame::<u8>(&bytes).unwrap(), vec![4, 5, 5, 7]);
    assert_eq!(read_collection_frame::<u8>(&[0]).unwrap(), vec![1]);
    assert!(matches!(
        read_collection_frame::<u8>(&bytes[..6]),
        Err(ByteVecError::BadSizeDecodeError { expected: BVExpectedSize::EqualTo(7), actual: 6 })
    ));
    assert!(matches!(
        read_collection_frame::<u8>(&bytes[..3]),
        Err(ByteVecError::BadSizeDecodeError { expected: BVExpectedSize::MoreThan(4), actual: 3 })
    ));
    assert!(matches!(
        read_collection_frame::<u16>(&[1]),
        Err(ByteVecError::BadSizeDecodeError { expected: BVExpectedSize::MoreThan(2), actual: 1 })
    ));
}

#[test]
fn test_items_helpers() {
    let items = [1u16, 2, 3];
    assert_eq!(collection_size::<u8, u16>(&items), Some(1 + 3 + 6));
    let bytes = encode_items::<u8, u16>(&items).unwrap();
    assert_eq!(bytes, vec![3, 2, 2, 2, 1, 0, 2, 0, 3, 0]);
    assert_eq!(decode_items::<u8, u16>(&bytes).unwrap(), vec![1, 2, 3]);
    assert!(decode_items::<u8, u32>(&bytes).is_err());
}

#[test]
fn test_set_and_map_items() {
    let set: HashSet<u8> = [3u8, 1, 2].into_iter().collect();
    let items = set_items(&set);
    assert_eq!(items.len(), 3);
    assert_eq!(items, set.iter().collect::<Vec<&u8>>());
    let mut sorted: Vec<u8> = items.into_iter().copied().collect();
    sorted.sort();
    assert_eq!(sorted, vec![1, 2, 3]);
    let mut map = HashMap::new();
    map.insert(1u8, "one");
    map.insert(2u8, "two");
    let pairs = map_items(&map);
    assert_eq!(pairs.len(), 2);
    assert_eq!(pairs, map.iter().collect::<Vec<(&u8, &&str)>>());
    assert!(set_items(&HashSet::<u8>::new()).is_empty());
    assert!(map_items(&HashMap::<u8, u8>::new()).is_empty());
}

#[test]
fn test_nested_hash_collections() {
    let mut inner_a = HashSet::new();
    inner_a.insert("x".to_string());
    inner_a.insert("yy".to_string());
    let mut inner_b = HashSet::new();
    inner_b.insert("zzz".to_string());
    let mut map: HashMap<u16, Vec<HashSet<String>>> = HashMap::new();
    map.insert(1, vec![inner_a.clone(), inner_b.clone()]);
    map.insert(2, vec![]);
    map.insert(3, vec![inner_b]);
    let bytes = bytevec::ByteEncodable::encode::<u16>(&map).unwrap();
    assert_eq!(bytevec::ByteEncodable::get_size::<u16>(&map), Some(bytes.len() as u16));
    let back: HashMap<u16, Vec<HashSet<String>>> =
        bytevec::ByteDecodable::decode::<u16>(&bytes).unwrap();
    assert_eq!(back, map);
}

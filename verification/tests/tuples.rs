use bytevec::errors::{BVExpectedSize, ByteVecError};
use bytevec::{ByteDecodable, ByteEncodable};

fn expect_equal_to<T: std::fmt::Debug>(outcome: Result<T, ByteVecError>, n: usize, len: usize) {
    match outcome {
        Err(ByteVecError::BadSizeDecodeError { expected: BVExpectedSize::EqualTo(e), actual }) => {
            assert_eq!((e, actual), (n, len));
        }
        other => panic!("unexpected outcome: {:?}", other),
    }
}

fn expect_more_than<T: std::fmt::Debug>(outcome: Result<T, ByteVecError>, n: usize, len: usize) {
    match outcome {
        Err(ByteVecError::BadSizeDecodeError { expected: BVExpectedSize::MoreThan(e), actual }) => {
            assert_eq!((e, actual), (n, len));
        }
        other => panic!("unexpected outcome: {:?}", other),
    }
}

#[test]
fn test_single_field_tuple() {
    let one = (0x0102u16,);
    assert_eq!(one.get_size::<u8>(), Some(3));
    assert_eq!(one.encode::<u8>().unwrap(), vec![2, 2, 1]);
    assert_eq!(<(u16,)>::decode::<u8>(&[2, 2, 1]).unwrap(), one);
    expect_more_than(<(u16,)>::decode::<u32>(&[2, 0, 0]), 4, 3);
    expect_equal_to(<(u16,)>::decode::<u8>(&[3, 2, 1]), 4, 3);
    expect_equal_to(<(u16,)>::decode::<u8>(&[1, 2, 1]), 2, 3);
}

#[test]
fn test_pair_layout() {
    let pair = (32u32, "abc".to_string());
    assert_eq!(pair.get_size::<u32>(), Some(15));
    let bytes = pair.encode::<u32>().unwrap();
    assert_eq!(bytes, vec![4, 0, 0, 0, 3, 0, 0, 0, 32, 0, 0, 0, 97, 98, 99]);
    assert_eq!(<(u32, String)>::decode::<u32>(&bytes).unwrap(), pair);
    let bytes = pair.encode::<u16>().unwrap();
    assert_eq!(bytes, vec![4, 0, 3, 0, 32, 0, 0, 0, 97, 98, 99]);
    assert_eq!(<(u32, String)>::decode::<u16>(&bytes).unwrap(), pair);
}

#[test]
fn test_tuple_of_references() {
    let id = 32u32;
    let name = "abc".to_string();
    let by_value = (id, name.clone()).encode::<u8>().unwrap();
    assert_eq!((&id, &name).encode::<u8>().unwrap(), by_value);
    assert_eq!((&(&id, &name)).encode::<u8>().unwrap(), by_value);
    assert_eq!((&id, &name).get_size::<u8>(), Some(9));
}

#[test]
fn test_truncated_tuple() {
    // three fields, but the buffer ends in the second size field
    expect_more_than(<(u8, u8, u8)>::decode::<u16>(&[1, 0, 1]), 4, 3);
    expect_more_than(<(u8, u8, u8)>::decode::<u16>(&[1, 0, 1, 0]), 6, 4);
    expect_more_than(<(u8, u8, u8)>::decode::<u16>(&[]), 2, 0);
    expect_more_than(<(u8, u8)>::decode::<u8>(&[1]), 2, 1);
    // all size fields are there, the bodies are not
    expect_equal_to(<(u8, u8, u8)>::decode::<u8>(&[1, 1, 1, 7, 8]), 6, 5);
    expect_equal_to(<(u8, u8, u8)>::decode::<u8>(&[1, 1, 1, 7, 8, 9, 10]), 6, 7);
    expect_equal_to(<(u8, u8)>::decode::<u64>(&[0xFF; 16]), usize::MAX, 16);
}

#[test]
fn test_first_bad_field_fails_the_tuple() {
    // the first field has two bytes where a u8 takes one; the second is no UTF-8
    expect_equal_to(<(u8, String)>::decode::<u8>(&[2, 1, 7, 7, 0xFF]), 1, 2);
    assert!(matches!(
        <(u8, String)>::decode::<u8>(&[1, 1, 7, 0xFF]),
        Err(ByteVecError::StringDecodeUtf8Error(_))
    ));
    expect_equal_to(<(String, u16)>::decode::<u8>(&[1, 1, 97, 7]), 2, 1);
}

#[test]
fn test_tuple_overflow() {
    let long = "x".repeat(250);
    let pair = (long.clone(), 1u32);
    // 2 size fields, 250 and 4 body bytes: 256 in all
    assert_eq!(pair.get_size::<u8>(), None);
    assert!(matches!(pair.encode::<u8>(), Err(ByteVecError::OverflowError)));
    let pair = (long, 1u16);
    assert_eq!(pair.get_size::<u8>(), Some(254));
    assert_eq!(pair.encode::<u8>().unwrap().len(), 254);
    let pair = ("x".repeat(300), 1u16);
    assert_eq!(pair.get_size::<u8>(), None);
    assert!(matches!(pair.encode::<u8>(), Err(ByteVecError::OverflowError)));
}

#[test]
fn test_nested_tuples() {
    let nested = ((1u8, 2u16), ("a".to_string(), (3u8,)));
    let bytes = nested.encode::<u8>().unwrap();
    assert_eq!(bytes, vec![5, 5, 1, 2, 1, 2, 0, 1, 2, b'a', 1, 3]);
    assert_eq!(<((u8, u16), (String, (u8,)))>::decode::<u8>(&bytes).unwrap(), nested);
}

#[test]
fn test_every_arity() {
    let t2 = (1u8, 2u16);
    assert_eq!(<(u8, u16)>::decode::<u8>(&t2.encode::<u8>().unwrap()).unwrap(), t2);
    let t3 = (1u8, 2u16, 3u32);
    assert_eq!(<(u8, u16, u32)>::decode::<u8>(&t3.encode::<u8>().unwrap()).unwrap(), t3);
    let t4 = (1u8, 2u16, 3u32, 4u64);
    assert_eq!(<(u8, u16, u32, u64)>::decode::<u8>(&t4.encode::<u8>().unwrap()).unwrap(), t4);
    let t5 = (1u8, 2u16, 3u32, 4u64, -5i8);
    assert_eq!(
        <(u8, u16, u32, u64, i8)>::decode::<u8>(&t5.encode::<u8>().unwrap()).unwrap(),
        t5
    );
    let t6 = (1u8, 2u16, 3u32, 4u64, -5i8, -6i16);
    assert_eq!(
        <(u8, u16, u32, u64, i8, i16)>::decode::<u16>(&t6.encode::<u16>().unwrap()).unwrap(),
        t6
    );
    let t7 = (1u8, 2u16, 3u32, 4u64, -5i8, -6i16, -7i32);
    assert_eq!(
        <(u8, u16, u32, u64, i8, i16, i32)>::decode::<u16>(&t7.encode::<u16>().unwrap())
            .unwrap(),
        t7
    );
    let t8 = (1u8, 2u16, 3u32, 4u64, -5i8, -6i16, -7i32, -8i64);
    assert_eq!(
        <(u8, u16, u32, u64, i8, i16, i32, i64)>::decode::<u32>(&t8.encode::<u32>().unwrap())
            .unwrap(),
        t8
    );
    let t9 = (1u8, 2u16, 3u32, 4u64, -5i8, -6i16, -7i32, -8i64, 'n');
    assert_eq!(
        <(u8, u16, u32, u64, i8, i16, i32, i64, char)>::decode::<u32>(
            &t9.encode::<u32>().unwrap()
        )
        .unwrap(),
        t9
    );
    let t10 = (1u8, 2u16, 3u32, 4u64, -5i8, -6i16, -7i32, -8i64, 'n', "ten".to_string());
    assert_eq!(
        <(u8, u16, u32, u64, i8, i16, i32, i64, char, String)>::decode::<u64>(
            &t10.encode::<u64>().unwrap()
        )
        .unwrap(),
        t10
    );
    let t11 = (1u8, 2u16, 3u32, 4u64, -5i8, -6i16, -7i32, -8i64, 'n', "ten".to_string(), 11usize);
    assert_eq!(
        <(u8, u16, u32, u64, i8, i16, i32, i64, char, String, usize)>::decode::<u64>(
            &t11.encode::<u64>().unwrap()
        )
        .unwrap(),
        t11
    );
}

#[test]
fn test_twelve_fields() {
    let value = (
        1u8,
        2u16,
        3u32,
        4u64,
        -5i8,
        -6i16,
        -7i32,
        -8i64,
        'n',
        "ten".to_string(),
        vec![11u8, 11],
        (12u8,),
    );
    assert_eq!(value.get_size::<u8>(), Some(12 + 1 + 2 + 4 + 8 + 1 + 2 + 4 + 8 + 4 + 3 + 5 + 2));
    let bytes = value.encode::<u8>().unwrap();
    assert_eq!(&bytes[..12], &[1, 2, 4, 8, 1, 2, 4, 8, 4, 3, 5, 2]);
    assert_eq!(bytes.len(), 56);
    let back = <(u8, u16, u32, u64, i8, i16, i32, i64, char, String, Vec<u8>, (u8,))>::decode::<
        u8,
    >(&bytes)
    .unwrap();
    assert_eq!(back, value);
    expect_more_than(
        <(u8, u16, u32, u64, i8, i16, i32, i64, char, String, Vec<u8>, (u8,))>::decode::<u8>(
            &bytes[..11],
        ),
        12,
        11,
    );
    expect_equal_to(
        <(u8, u16, u32, u64, i8, i16, i32, i64, char, String, Vec<u8>, (u8,))>::decode::<u8>(
            &bytes[..55],
        ),
        56,
        55,
    );
}

use bytevec::errors::{BVExpectedSize, ByteVecError};
use bytevec::{BVSize, ByteDecodable, ByteEncodable};

fn is_not_equal_to<T: std::fmt::Debug>(outcome: Result<T, ByteVecError>, n: usize, len: usize) {
    match outcome {
        Err(ByteVecError::BadSizeDecodeError { expected: BVExpectedSize::EqualTo(e), actual }) => {
            assert_eq!(e, n);
            assert_eq!(actual, len);
        }
        other => panic!("unexpected outcome: {:?}", other),
    }
}

#[test]
fn test_unsigned_bytes_are_little_endian() {
    assert_eq!(0xABu8.encode::<u32>().unwrap(), vec![0xAB]);
    assert_eq!(0x1234u16.encode::<u32>().unwrap(), vec![0x34, 0x12]);
    assert_eq!(0x1234_5678u32.encode::<u32>().unwrap(), vec![0x78, 0x56, 0x34, 0x12]);
    assert_eq!(
        0x0102_0304_0506_0708u64.encode::<u32>().unwrap(),
        vec![8, 7, 6, 5, 4, 3, 2, 1]
    );
    assert_eq!(0x1234u16.encode::<u32>().unwrap(), 0x1234u16.to_le_bytes().to_vec());
    assert_eq!(u64::MAX.encode::<u8>().unwrap(), vec![0xFF; 8]);
}

#[test]
fn test_signed_bytes_are_twos_complement() {
    assert_eq!((-1i8).encode::<u32>().unwrap(), vec![0xFF]);
    assert_eq!((-2i16).encode::<u32>().unwrap(), vec![0xFE, 0xFF]);
    assert_eq!(i32::MIN.encode::<u32>().unwrap(), vec![0, 0, 0, 0x80]);
    assert_eq!(i64::MIN.encode::<u32>().unwrap(), i64::MIN.to_le_bytes().to_vec());
    assert_eq!((-123456789i64).encode::<u8>().unwrap(), (-123456789i64).to_le_bytes().to_vec());
    assert_eq!(i8::decode::<u32>(&[0x80]).unwrap(), i8::MIN);
    assert_eq!(i16::decode::<u32>(&[0xFE, 0xFF]).unwrap(), -2);
    assert_eq!(i32::decode::<u32>(&[0xFF, 0xFF, 0xFF, 0x7F]).unwrap(), i32::MAX);
    assert_eq!(i64::decode::<u32>(&[0xFF; 8]).unwrap(), -1);
}

#[test]
fn test_integers_round_trip() {
    for v in [0u8, 1, 127, 128, 255] {
        assert_eq!(u8::decode::<u8>(&v.encode::<u8>().unwrap()).unwrap(), v);
    }
    for v in [0u16, 255, 256, u16::MAX] {
        assert_eq!(u16::decode::<u16>(&v.encode::<u16>().unwrap()).unwrap(), v);
    }
    for v in [0u32, 65535, 65536, u32::MAX] {
        assert_eq!(u32::decode::<u32>(&v.encode::<u32>().unwrap()).unwrap(), v);
    }
    for v in [0u64, 1 << 32, u64::MAX] {
        assert_eq!(u64::decode::<u64>(&v.encode::<u64>().unwrap()).unwrap(), v);
    }
    for v in [i8::MIN, -1, 0, 1, i8::MAX] {
        assert_eq!(i8::decode::<u8>(&v.encode::<u8>().unwrap()).unwrap(), v);
    }
    for v in [i16::MIN, -1, 0, 1, i16::MAX] {
        assert_eq!(i16::decode::<u16>(&v.encode::<u16>().unwrap()).unwrap(), v);
    }
    for v in [i32::MIN, -1, 0, 1, i32::MAX] {
        assert_eq!(i32::decode::<u32>(&v.encode::<u32>().unwrap()).unwrap(), v);
    }
    for v in [i64::MIN, -1, 0, 1, i64::MAX] {
        assert_eq!(i64::decode::<u64>(&v.encode::<u64>().unwrap()).unwrap(), v);
    }
    for v in [0usize, 1, usize::MAX] {
        assert_eq!(usize::decode::<u8>(&v.encode::<u8>().unwrap()).unwrap(), v);
    }
}

#[test]
fn test_primitive_sizes_never_fail() {
    assert_eq!(7u8.get_size::<u8>(), Some(1));
    assert_eq!(7u16.get_size::<u8>(), Some(2));
    assert_eq!(7u32.get_size::<u16>(), Some(4));
    assert_eq!(7u64.get_size::<u8>(), Some(8));
    assert_eq!(7i8.get_size::<u32>(), Some(1));
    assert_eq!(7i16.get_size::<u32>(), Some(2));
    assert_eq!(7i32.get_size::<u64>(), Some(4));
    assert_eq!(7i64.get_size::<u8>(), Some(8));
    assert_eq!('x'.get_size::<u8>(), Some(4));
    assert_eq!(7usize.get_size::<u8>(), Some(std::mem::size_of::<usize>() as u8));
}

#[test]
fn test_usize_is_written_at_platform_width() {
    let bytes = 0x0102usize.encode::<u32>().unwrap();
    assert_eq!(bytes.len(), std::mem::size_of::<usize>());
    assert_eq!(bytes, 0x0102usize.to_le_bytes().to_vec());
    is_not_equal_to(usize::decode::<u32>(&[1, 2, 3]), std::mem::size_of::<usize>(), 3);
}

#[test]
fn test_exact_size_is_enforced() {
    is_not_equal_to(u8::decode::<u32>(&[1, 2]), 1, 2);
    is_not_equal_to(u16::decode::<u32>(&[1]), 2, 1);
    is_not_equal_to(u32::decode::<u32>(&[1, 2, 3, 4, 5]), 4, 5);
    is_not_equal_to(u64::decode::<u32>(&[1, 2, 3, 4]), 8, 4);
    is_not_equal_to(i8::decode::<u32>(&[1, 2, 3]), 1, 3);
    is_not_equal_to(i16::decode::<u32>(&[1, 2, 3]), 2, 3);
    is_not_equal_to(i32::decode::<u32>(&[1, 2, 3]), 4, 3);
    is_not_equal_to(i64::decode::<u32>(&[0; 9]), 8, 9);
    is_not_equal_to(char::decode::<u32>(&[0x41]), 4, 1);
}

#[test]
fn test_empty_buffer_is_no_primitive() {
    is_not_equal_to(u8::decode::<u8>(&[]), 1, 0);
    is_not_equal_to(u16::decode::<u8>(&[]), 2, 0);
    is_not_equal_to(u32::decode::<u8>(&[]), 4, 0);
    is_not_equal_to(u64::decode::<u8>(&[]), 8, 0);
    is_not_equal_to(i8::decode::<u8>(&[]), 1, 0);
    is_not_equal_to(i16::decode::<u8>(&[]), 2, 0);
    is_not_equal_to(i32::decode::<u8>(&[]), 4, 0);
    is_not_equal_to(i64::decode::<u8>(&[]), 8, 0);
    is_not_equal_to(char::decode::<u8>(&[]), 4, 0);
    is_not_equal_to(usize::decode::<u8>(&[]), std::mem::size_of::<usize>(), 0);
}

#[test]
fn test_char_is_its_scalar_value() {
    assert_eq!('A'.encode::<u32>().unwrap(), vec![0x41, 0, 0, 0]);
    assert_eq!('ñ'.encode::<u32>().unwrap(), vec![0xF1, 0, 0, 0]);
    assert_eq!('\u{10FFFF}'.encode::<u32>().unwrap(), vec![0xFF, 0xFF, 0x10, 0]);
    assert_eq!(char::decode::<u32>(&[0x41, 0, 0, 0]).unwrap(), 'A');
    assert_eq!(char::decode::<u32>(&[0xFF, 0xD7, 0, 0]).unwrap(), '\u{D7FF}');
    assert_eq!(char::decode::<u32>(&[0, 0xE0, 0, 0]).unwrap(), '\u{E000}');
    for c in ['\0', 'z', 'é', '日', '\u{1F600}', char::MAX] {
        assert_eq!(char::decode::<u8>(&c.encode::<u8>().unwrap()).unwrap(), c);
    }
}

#[test]
fn test_number_of_no_char_decodes_to_replacement() {
    assert_eq!(char::decode::<u32>(&[0, 0xD8, 0, 0]).unwrap(), '\u{FFFD}');
    assert_eq!(char::decode::<u32>(&[0xFF, 0xDF, 0, 0]).unwrap(), '\u{FFFD}');
    assert_eq!(char::decode::<u32>(&[0, 0, 0x11, 0]).unwrap(), '\u{FFFD}');
    assert_eq!(char::decode::<u32>(&[0xFF, 0xFF, 0xFF, 0xFF]).unwrap(), '\u{FFFD}');
}

#[test]
fn test_floats_go_through_their_bits() {
    let x = 1.5f32;
    let bytes = x.to_bits().encode::<u32>().unwrap();
    assert_eq!(bytes, x.to_le_bytes().to_vec());
    assert_eq!(f32::from_bits(u32::decode::<u32>(&bytes).unwrap()), x);
    let y = -2.25f64;
    let bytes = y.to_bits().encode::<u32>().unwrap();
    assert_eq!(bytes, y.to_le_bytes().to_vec());
    assert_eq!(f64::from_bits(u64::decode::<u32>(&bytes).unwrap()), y);
}

#[test]
fn test_size_types() {
    assert_eq!(<u8 as BVSize>::from_usize(44), 44);
    assert_eq!(<u8 as BVSize>::from_usize(300), 44);
    assert_eq!(<u16 as BVSize>::from_usize(65536 + 5), 5);
    assert_eq!(<u32 as BVSize>::from_usize(7), 7);
    assert_eq!(<u64 as BVSize>::from_usize(usize::MAX), usize::MAX as u64);
    assert_eq!(BVSize::as_usize(&200u8), 200);
    assert_eq!(BVSize::as_usize(&60000u16), 60000);
    assert_eq!(BVSize::as_usize(&70000u32), 70000);
    assert_eq!(BVSize::as_usize(&70000u64), 70000);
    assert_eq!(<u8 as BVSize>::max_value(), 255);
    assert_eq!(<u16 as BVSize>::max_value(), 65535);
    assert_eq!(<u32 as BVSize>::max_value(), u32::MAX);
    assert_eq!(<u64 as BVSize>::max_value(), u64::MAX);
    assert_eq!(<u8 as BVSize>::get_size_of(), 1);
    assert_eq!(<u16 as BVSize>::get_size_of(), 2);
    assert_eq!(<u32 as BVSize>::get_size_of(), 4);
    assert_eq!(<u64 as BVSize>::get_size_of(), 8);
    assert_eq!(BVSize::checked_add(200u8, 55u8), Some(255));
    assert_eq!(BVSize::checked_add(200u8, 56u8), None);
    assert_eq!(BVSize::checked_add(u16::MAX, 1u16), None);
    assert_eq!(BVSize::checked_add(1u32, 2u32), Some(3));
    assert_eq!(BVSize::checked_add(u64::MAX, 1u64), None);
}

#[test]
fn test_decode_max_on_primitives() {
    assert_eq!(u32::decode_max::<u8>(&[1, 0, 0, 0], 4).unwrap(), 1);
    assert_eq!(u32::decode_max::<u8>(&[1, 0, 0, 0], 200).unwrap(), 1);
    match u32::decode_max::<u8>(&[1, 0, 0, 0], 3) {
        Err(ByteVecError::BadSizeDecodeError {
            expected: BVExpectedSize::LessOrEqualThan(3),
            actual: 4,
        }) => {}
        other => panic!("unexpected outcome: {:?}", other),
    }
    is_not_equal_to(u32::decode_max::<u8>(&[1, 0], 3), 4, 2);
    match u8::decode_max::<u64>(&[1, 2, 3], 0) {
        Err(ByteVecError::BadSizeDecodeError {
            expected: BVExpectedSize::LessOrEqualThan(0),
            actual: 3,
        }) => {}
        other => panic!("unexpected outcome: {:?}", other),
    }
}

#[test]
fn test_unit() {
    assert_eq!(().get_size::<u32>(), Some(0));
    assert_eq!(().get_size::<u8>(), Some(0));
    assert_eq!(().encode::<u32>().unwrap(), Vec::<u8>::new());
    assert_eq!(().encode::<u8>().unwrap(), Vec::<u8>::new());
    assert!(<()>::decode::<u32>(&[1, 2, 3]).is_ok());
    assert!(<()>::decode::<u32>(&[]).is_ok());
    assert!(<()>::decode::<u32>(&().encode::<u32>().unwrap()).is_ok());
}

#[test]
fn test_unit_inside_composites() {
    let pair = ((), 7u8);
    assert_eq!(pair.get_size::<u8>(), Some(3));
    let bytes = pair.encode::<u8>().unwrap();
    assert_eq!(bytes, vec![0, 1, 7]);
    assert_eq!(<((), u8)>::decode::<u8>(&bytes).unwrap(), pair);
    let list = vec![(), (), ()];
    assert_eq!(list.get_size::<u16>(), Some(8));
    let bytes = list.encode::<u16>().unwrap();
    assert_eq!(bytes, vec![3, 0, 0, 0, 0, 0, 0, 0]);
    assert_eq!(Vec::<()>::decode::<u16>(&bytes).unwrap(), list);
}

#[test]
fn test_references_encode_what_they_point_to() {
    let value = 0x0102u16;
    let reference = &value;
    assert_eq!(reference.get_size::<u8>(), Some(2));
    assert_eq!(reference.encode::<u8>().unwrap(), vec![2, 1]);
    assert_eq!((&reference).encode::<u8>().unwrap(), vec![2, 1]);
    let text: &str = "hi";
    assert_eq!((&text).encode::<u8>().unwrap(), vec![104, 105]);
}

use bytevec::errors::{BVExpectedSize, ByteVecError};
use bytevec::ByteDecodable;

#[test]
fn test_bad_size_messages() {
    let e = ByteVecError::BadSizeDecodeError { expected: BVExpectedSize::EqualTo(4), actual: 0 };
    assert_eq!(
        e.to_string(),
        "The size expected for the structure is 4, but the size of the given buffer is 0"
    );
    let e = ByteVecError::BadSizeDecodeError {
        expected: BVExpectedSize::MoreThan(12),
        actual: 1090,
    };
    assert_eq!(
        e.to_string(),
        "The size expected for the structure is more than 12, but the size of the given buffer is 1090"
    );
    let e = ByteVecError::BadSizeDecodeError {
        expected: BVExpectedSize::LessOrEqualThan(65535),
        actual: 70001,
    };
    assert_eq!(
        e.to_string(),
        "The size expected for the structure is less or equal than 65535, but the size of the given buffer is 70001"
    );
}

#[test]
fn test_expected_size_messages() {
    assert_eq!(BVExpectedSize::EqualTo(0).to_string(), "0");
    assert_eq!(BVExpectedSize::EqualTo(9).to_string(), "9");
    assert_eq!(BVExpectedSize::EqualTo(10).to_string(), "10");
    assert_eq!(BVExpectedSize::EqualTo(usize::MAX).to_string(), format!("{}", usize::MAX));
    assert_eq!(BVExpectedSize::MoreThan(1234567890).to_string(), "more than 1234567890");
    assert_eq!(BVExpectedSize::LessOrEqualThan(101).to_string(), "less or equal than 101");
}

#[test]
fn test_overflow_message() {
    assert_eq!(
        ByteVecError::OverflowError.to_string(),
        "OverflowError: The size of the data structure surpasses the max value of the integral generic type"
    );
}

#[test]
fn test_utf8_error_message_and_cause() {
    let bytes = [0x66, 0x6F, 0xFF, 0x6F];
    let expected = std::str::from_utf8(&bytes).unwrap_err();
    let e = String::decode::<u32>(&bytes).unwrap_err();
    assert_eq!(e.to_string(), format!("StringDecodeUtf8Error: {}", expected));
    assert_ne!(e.to_string(), "StringDecodeUtf8Error: ");
    match &e {
        ByteVecError::StringDecodeUtf8Error(inner) => {
            assert_eq!(*inner, expected);
            assert_eq!(inner.valid_up_to(), 2);
        }
        other => panic!("unexpected error: {:?}", other),
    }
    assert_eq!(e.cause(), Some(&expected));
}

#[test]
fn test_cause_of_other_errors() {
    assert!(ByteVecError::OverflowError.cause().is_none());
    let e = ByteVecError::BadSizeDecodeError { expected: BVExpectedSize::EqualTo(4), actual: 0 };
    assert!(e.cause().is_none());
}

#[test]
fn test_error_from_utf8_error() {
    let inner = std::str::from_utf8(&[0xC0]).unwrap_err();
    let e = ByteVecError::from(inner);
    assert!(matches!(e, ByteVecError::StringDecodeUtf8Error(x) if x == inner));
    let copy = e.clone();
    assert!(matches!(copy, ByteVecError::StringDecodeUtf8Error(x) if x == inner));
    let e = ByteVecError::BadSizeDecodeError { expected: BVExpectedSize::MoreThan(3), actual: 2 };
    assert!(matches!(
        e.clone(),
        ByteVecError::BadSizeDecodeError { expected: BVExpectedSize::MoreThan(3), actual: 2 }
    ));
    assert!(matches!(ByteVecError::OverflowError.clone(), ByteVecError::OverflowError));
}

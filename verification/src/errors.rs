//! What can go wrong when a value is encoded or decoded.
use std::str::Utf8Error;
use vstd::prelude::*;
use vstd::string::StringExecFns;

verus! {

/// `core::str::Utf8Error`, the error of a buffer that is not UTF-8. It is
/// carried through as it comes: nothing is claimed of what it holds.
#[verifier::external_type_specification]
#[verifier::external_body]
pub struct ExUtf8Error(Utf8Error);

/// The buffer length that a decoder was prepared to accept.
#[derive(Debug, Clone, Copy)]
pub enum BVExpectedSize {
    LessOrEqualThan(usize),
    MoreThan(usize),
    EqualTo(usize),
}

/// Why an encode or a decode call gave no result.
#[derive(Debug)]
pub enum ByteVecError {
    /// The bytes of a string are not UTF-8.
    StringDecodeUtf8Error(Utf8Error),
    /// The buffer is `actual` bytes long, and the structure asks for `expected`.
    BadSizeDecodeError { expected: BVExpectedSize, actual: usize },
    /// A length does not fit in the integer type chosen for sizes.
    OverflowError,
}

/// `n` as a `usize`, or `usize::MAX` where it is larger than that.
pub open spec fn clamp(n: nat) -> usize {
    if n <= usize::MAX {
        n as usize
    } else {
        usize::MAX
    }
}

/// The error of a buffer of `actual` bytes that should have held exactly `expected`.
pub open spec fn not_equal_to(expected: nat, actual: nat) -> ByteVecError {
    ByteVecError::BadSizeDecodeError {
        expected: BVExpectedSize::EqualTo(clamp(expected)),
        actual: clamp(actual),
    }
}

/// The error of a buffer of `actual` bytes that ends before byte `expected`.
pub open spec fn not_more_than(expected: nat, actual: nat) -> ByteVecError {
    ByteVecError::BadSizeDecodeError {
        expected: BVExpectedSize::MoreThan(clamp(expected)),
        actual: clamp(actual),
    }
}

/// The error of a buffer of `actual` bytes where at most `limit` are accepted.
pub open spec fn not_within(limit: nat, actual: nat) -> ByteVecError {
    ByteVecError::BadSizeDecodeError {
        expected: BVExpectedSize::LessOrEqualThan(clamp(limit)),
        actual: clamp(actual),
    }
}

/// The character of the decimal digit `d`.
pub open spec fn digit(d: nat) -> char {
    if d == 0 {
        '0'
    } else if d == 1 {
        '1'
    } else if d == 2 {
        '2'
    } else if d == 3 {
        '3'
    } else if d == 4 {
        '4'
    } else if d == 5 {
        '5'
    } else if d == 6 {
        '6'
    } else if d == 7 {
        '7'
    } else if d == 8 {
        '8'
    } else {
        '9'
    }
}

/// `n` written in decimal, without leading zeros.
pub open spec fn decimal(n: nat) -> Seq<char>
    decreases n,
{
    if n < 10 {
        seq![digit(n)]
    } else {
        decimal(n / 10).push(digit(n % 10))
    }
}

/// How an expected size reads in a message.
pub open spec fn expected_text(expected: BVExpectedSize) -> Seq<char> {
    match expected {
        BVExpectedSize::LessOrEqualThan(n) => "less or equal than "@ + decimal(n as nat),
        BVExpectedSize::MoreThan(n) => "more than "@ + decimal(n as nat),
        BVExpectedSize::EqualTo(n) => decimal(n as nat),
    }
}

/// The message of a buffer of `actual` bytes where `expected` was asked for.
pub open spec fn bad_size_text(expected: BVExpectedSize, actual: usize) -> Seq<char> {
    "The size expected for the structure is "@ + expected_text(expected)
        + ", but the size of the given buffer is "@ + decimal(actual as nat)
}

/// The message of an overflow.
pub open spec fn overflow_text() -> Seq<char> {
    "OverflowError: The size of the data structure surpasses the max value of the integral generic type"@
}

/// The message of a UTF-8 error: its name, then what the error says of itself.
pub open spec fn utf8_text(error: Utf8Error) -> Seq<char> {
    "StringDecodeUtf8Error: "@ + utf8_error_message(error)
}

/// The message of an error.
pub open spec fn message(error: ByteVecError) -> Seq<char> {
    match error {
        ByteVecError::StringDecodeUtf8Error(e) => utf8_text(e),
        ByteVecError::BadSizeDecodeError { expected, actual } => bad_size_text(expected, actual),
        ByteVecError::OverflowError => overflow_text(),
    }
}

/// The decimal digit `d` as a string.
fn digit_str(d: usize) -> (text: &'static str)
    requires
        d < 10,
    ensures
        text@ == seq![digit(d as nat)],
{
    proof {
        reveal_strlit("0");
        reveal_strlit("1");
        reveal_strlit("2");
        reveal_strlit("3");
        reveal_strlit("4");
        reveal_strlit("5");
        reveal_strlit("6");
        reveal_strlit("7");
        reveal_strlit("8");
        reveal_strlit("9");
    }
    let text = if d == 0 {
        "0"
    } else if d == 1 {
        "1"
    } else if d == 2 {
        "2"
    } else if d == 3 {
        "3"
    } else if d == 4 {
        "4"
    } else if d == 5 {
        "5"
    } else if d == 6 {
        "6"
    } else if d == 7 {
        "7"
    } else if d == 8 {
        "8"
    } else {
        "9"
    };
    assert(text@ =~= seq![digit(d as nat)]);
    text
}

/// Appends `n` in decimal to `text`.
fn push_decimal(text: &mut String, n: usize)
    ensures
        final(text)@ == old(text)@ + decimal(n as nat),
    decreases n,
{
    let ghost start = text@;
    if n >= 10 {
        push_decimal(text, n / 10);
    }
    text.append(digit_str(n % 10));
    assert(text@ =~= start + decimal(n as nat));
}

/// What a UTF-8 error says of itself: the text that its `Display` writes.
pub uninterp spec fn utf8_error_message(error: Utf8Error) -> Seq<char>;

/// What a UTF-8 error says of itself.
///
/// Wraps the `Display` of `core::str::Utf8Error`, whose text depends on the
/// error alone and is named `utf8_error_message`.
#[verifier::external_body]
fn utf8_error_text(error: &Utf8Error) -> (text: String)
    ensures
        text@ == utf8_error_message(*error),
{
    error.to_string()
}

impl Clone for ByteVecError {
    fn clone(&self) -> (copy: Self)
        ensures
            copy == *self,
    {
        match self {
            ByteVecError::StringDecodeUtf8Error(e) => ByteVecError::StringDecodeUtf8Error(*e),
            ByteVecError::BadSizeDecodeError { expected, actual } => {
                ByteVecError::BadSizeDecodeError { expected: *expected, actual: *actual }
            },
            ByteVecError::OverflowError => ByteVecError::OverflowError,
        }
    }
}

impl BVExpectedSize {
    /// How this expected size reads in a message.
    pub fn to_string(&self) -> (text: String)
        ensures
            text@ == expected_text(*self),
    {
        match *self {
            BVExpectedSize::LessOrEqualThan(n) => {
                let mut text = String::from_str("less or equal than ");
                push_decimal(&mut text, n);
                text
            },
            BVExpectedSize::MoreThan(n) => {
                let mut text = String::from_str("more than ");
                push_decimal(&mut text, n);
                text
            },
            BVExpectedSize::EqualTo(n) => {
                let mut text = String::new();
                push_decimal(&mut text, n);
                assert(text@ =~= decimal(n as nat));
                text
            },
        }
    }
}

impl ByteVecError {
    /// The message of this error.
    pub fn to_string(&self) -> (text: String)
        ensures
            text@ == message(*self),
    {
        match self {
            ByteVecError::StringDecodeUtf8Error(e) => {
                let mut text = String::from_str("StringDecodeUtf8Error: ");
                let detail = utf8_error_text(e);
                text.append(detail.as_str());
                text
            },
            ByteVecError::BadSizeDecodeError { expected, actual } => {
                let mut text = String::from_str("The size expected for the structure is ");
                text.append(expected.to_string().as_str());
                text.append(", but the size of the given buffer is ");
                push_decimal(&mut text, *actual);
                text
            },
            ByteVecError::OverflowError => String::from_str(
                "OverflowError: The size of the data structure surpasses the max value of the integral generic type",
            ),
        }
    }

    /// The UTF-8 error underneath this one, if that is what it wraps.
    pub fn cause(&self) -> (source: Option<&Utf8Error>)
        ensures
            match *self {
                ByteVecError::StringDecodeUtf8Error(e) => source == Some(&e),
                _ => source is None,
            },
    {
        match self {
            ByteVecError::StringDecodeUtf8Error(e) => Some(e),
            _ => None,
        }
    }
}

impl From<Utf8Error> for ByteVecError {
    fn from(error: Utf8Error) -> (e: ByteVecError) {
        ByteVecError::StringDecodeUtf8Error(error)
    }
}

impl vstd::std_specs::convert::FromSpecImpl<Utf8Error> for ByteVecError {
    open spec fn obeys_from_spec() -> bool {
        true
    }

    open spec fn from_spec(error: Utf8Error) -> ByteVecError {
        ByteVecError::StringDecodeUtf8Error(error)
    }
}

} // verus!

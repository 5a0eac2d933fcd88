use hidden::text::push_decimal;
use hidden::{decode_hidden, DecodeError, DecodeErrorKind};

fn decimal(n: usize) -> String {
    let mut text = String::new();
    push_decimal(&mut text, n);
    text
}

#[test]
fn numbers_are_written_in_decimal() {
    assert_eq!(decimal(0), "0");
    assert_eq!(decimal(7), "7");
    assert_eq!(decimal(9), "9");
    assert_eq!(decimal(10), "10");
    assert_eq!(decimal(109), "109");
    assert_eq!(decimal(1000), "1000");
    assert_eq!(decimal(usize::MAX), usize::MAX.to_string());
    for n in 0..2000usize {
        assert_eq!(decimal(n), n.to_string());
    }
}

#[test]
fn a_number_is_appended_to_what_is_there() {
    let mut text = String::from("length was ");
    push_decimal(&mut text, 42);
    assert_eq!(text, "length was 42");
}

#[test]
fn incorrect_length_is_described_with_the_length() {
    let error = DecodeError { kind: DecodeErrorKind::IncorrectLength(109) };
    assert_eq!(
        error.message(),
        "Number of invisible characters must be divisible by 8, length was 109"
    );
}

#[test]
fn invalid_char_is_described_with_the_byte() {
    let error = DecodeError { kind: DecodeErrorKind::InvalidChar(200) };
    assert_eq!(error.message(), "Could not interpret 200 as char");
    let zero = DecodeError { kind: DecodeErrorKind::InvalidChar(0) };
    assert_eq!(zero.message(), "Could not interpret 0 as char");
}

#[test]
fn invalid_int_is_described() {
    let error = DecodeError { kind: DecodeErrorKind::InvalidInt };
    assert_eq!(error.message(), "Failed to parse int");
}

#[test]
fn the_error_of_a_decoding_describes_itself() {
    let error = decode_hidden(String::from("010"), Some('0'), Some('1')).unwrap_err();
    assert_eq!(
        error.message(),
        "Number of invisible characters must be divisible by 8, length was 3"
    );
}

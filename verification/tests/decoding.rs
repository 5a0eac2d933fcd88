use hidden::decode::{collect_bits, parse_byte};
use hidden::{decode_hidden, encode_bytes, encode_hidden, DecodeError, DecodeErrorKind};

fn incorrect_length(result: Result<Option<Vec<u8>>, DecodeError>) -> Option<usize> {
    match result {
        Err(DecodeError { kind: DecodeErrorKind::IncorrectLength(count) }) => Some(count),
        _ => None,
    }
}

#[test]
fn bits_are_collected_in_the_order_of_the_scan() {
    assert_eq!(
        collect_bits("a-b+c--+", '-', '+'),
        vec![false, true, false, false, true]
    );
    assert_eq!(collect_bits("", '-', '+'), Vec::<bool>::new());
    assert_eq!(collect_bits("abc", '-', '+'), Vec::<bool>::new());
}

#[test]
fn characters_are_scanned_not_bytes() {
    // the two characters share their first UTF-8 byte with the symbols
    let bits = collect_bits("\u{200c}\u{200d}\u{2063}\u{2064}", '\u{200c}', '\u{2063}');
    assert_eq!(bits, vec![false, true]);
}

#[test]
fn a_byte_is_parsed_from_its_digits() {
    let digits = [false, true, true, false, false, false, false, true];
    assert!(matches!(parse_byte(&digits), Ok(0x61)));
    assert!(matches!(parse_byte(&[true; 8]), Ok(255)));
    assert!(matches!(parse_byte(&[false; 8]), Ok(0)));
    assert!(matches!(parse_byte(&[true, false, true]), Ok(5)));
    assert!(matches!(parse_byte(&[true]), Ok(1)));
}

#[test]
fn digits_that_denote_no_byte_are_an_invalid_int() {
    assert!(matches!(
        parse_byte(&[]),
        Err(DecodeError { kind: DecodeErrorKind::InvalidInt })
    ));
    let two_hundred_fifty_six = [true, false, false, false, false, false, false, false, false];
    assert!(matches!(
        parse_byte(&two_hundred_fifty_six),
        Err(DecodeError { kind: DecodeErrorKind::InvalidInt })
    ));
    assert!(matches!(
        parse_byte(&[true; 9]),
        Err(DecodeError { kind: DecodeErrorKind::InvalidInt })
    ));
    let one_after_zeros = [false, false, false, false, false, false, false, false, true];
    assert!(matches!(parse_byte(&one_after_zeros), Ok(1)));
}

#[test]
fn groups_of_eight_become_bytes_in_order() {
    let decoded = decode_hidden(String::from("0000000011111111000011111000000000000001"), Some('0'), Some('1'));
    assert!(matches!(decoded, Ok(Some(bytes)) if bytes == [0x00, 0xff, 0x0f, 0x80, 0x01]));
}

#[test]
fn decoding_gives_back_what_was_encoded() {
    let texts = ["a", "this is hidden", "h\u{e9}llo w\u{f6}rld \u{2713}", "\u{1f600}", "\n\t\0"];
    let pairs = [(None, None), (Some('0'), Some('1')), (Some('\u{e9}'), None), (None, Some('-'))];
    for text in texts {
        for (low, high) in pairs {
            let hidden = encode_hidden(String::from(text), low, high).unwrap();
            let decoded = decode_hidden(hidden, low, high);
            assert!(matches!(decoded, Ok(Some(bytes)) if bytes == text.as_bytes()));
        }
    }
}

#[test]
fn every_byte_value_comes_back() {
    let plaintext: Vec<u8> = (0..=255u8).collect();
    let hidden = encode_bytes(&plaintext, None, None).unwrap();
    assert_eq!(hidden.chars().count(), 8 * 256);
    let decoded = decode_hidden(hidden, None, None);
    assert!(matches!(decoded, Ok(Some(bytes)) if bytes == plaintext));
}

#[test]
fn bytes_that_are_no_text_come_back_as_they_were() {
    let hidden = encode_bytes(&[0xff, 0x00, 0xc3], Some('0'), Some('1')).unwrap();
    let decoded = decode_hidden(hidden, Some('0'), Some('1'));
    assert!(matches!(decoded, Ok(Some(bytes)) if bytes == [0xff, 0x00, 0xc3]));
}

#[test]
fn a_carrier_without_symbols_hides_nothing() {
    assert!(matches!(decode_hidden(String::new(), None, None), Ok(None)));
    assert!(matches!(
        decode_hidden(String::from("01100001"), None, None),
        Ok(None)
    ));
    assert!(matches!(
        decode_hidden(String::from("\u{200b}\u{200d}\u{feff}"), None, None),
        Ok(None)
    ));
    assert!(matches!(
        decode_hidden(String::from("\u{200c}\u{2063} and text"), Some('0'), Some('1')),
        Ok(None)
    ));
}

#[test]
fn a_count_that_is_no_multiple_of_eight_is_refused_with_the_count() {
    for count in 1..40usize {
        let carrier: String = "01".chars().cycle().take(count).collect();
        let result = decode_hidden(carrier, Some('0'), Some('1'));
        if count % 8 == 0 {
            assert!(matches!(result, Ok(Some(bytes)) if bytes.len() == count / 8));
        } else {
            assert_eq!(incorrect_length(result), Some(count));
        }
    }
}

#[test]
fn only_symbols_are_counted() {
    let result = decode_hidden(String::from("visible 0 and 1 and 2 and 0"), Some('0'), Some('1'));
    assert_eq!(incorrect_length(result), Some(3));
}

#[test]
fn noise_between_the_symbols_changes_nothing() {
    let hidden = encode_hidden(String::from("hi"), None, None).unwrap();
    let symbols: Vec<char> = hidden.chars().collect();
    for place in 0..=symbols.len() {
        let mut carrier: String = symbols[..place].iter().collect();
        carrier.push_str("noise \u{200b}\u{200d}01");
        carrier.extend(symbols[place..].iter());
        let decoded = decode_hidden(carrier, None, None);
        assert!(matches!(decoded, Ok(Some(bytes)) if bytes == "hi".as_bytes()));
    }
    let spread: String = symbols.iter().flat_map(|symbol| [*symbol, ' ', 'x']).collect();
    let decoded = decode_hidden(spread, None, None);
    assert!(matches!(decoded, Ok(Some(bytes)) if bytes == "hi".as_bytes()));
}

#[test]
fn visible_text_after_the_hidden_sequence_is_passed_over() {
    let hidden = encode_hidden(String::from("secret"), None, None).unwrap();
    let carrier = hidden::add_plain_text(hidden, &Some(String::from(" nothing to see here")));
    let decoded = decode_hidden(carrier, None, None);
    assert!(matches!(decoded, Ok(Some(bytes)) if bytes == "secret".as_bytes()));
}

#[test]
fn three_symbols_less_are_refused_wherever_they_were() {
    let hidden = encode_hidden(String::from("this is hidden"), None, None).unwrap();
    let symbols: Vec<char> = hidden.chars().collect();
    assert_eq!(symbols.len(), 112);
    for (i, j, k) in [(0, 1, 2), (0, 55, 111), (109, 110, 111), (7, 8, 9), (30, 60, 90)] {
        let carrier: String = symbols
            .iter()
            .enumerate()
            .filter(|(place, _)| *place != i && *place != j && *place != k)
            .map(|(_, symbol)| *symbol)
            .collect();
        assert_eq!(incorrect_length(decode_hidden(carrier, None, None)), Some(109));
    }
}

#[test]
fn equal_symbols_decode_to_zero_bits() {
    let hidden = encode_hidden(String::from("a"), Some('x'), Some('x')).unwrap();
    let decoded = decode_hidden(hidden, Some('x'), Some('x'));
    assert!(matches!(decoded, Ok(Some(bytes)) if bytes == [0x00]));
}

#[test]
fn symbols_default_one_by_one_when_decoding() {
    let low_given = decode_hidden(String::from("0\u{2063}\u{2063}0000\u{2063}"), Some('0'), None);
    assert!(matches!(low_given, Ok(Some(bytes)) if bytes == "a".as_bytes()));
    let high_given = decode_hidden(
        String::from("\u{200c}11\u{200c}\u{200c}\u{200c}\u{200c}1"),
        None,
        Some('1'),
    );
    assert!(matches!(high_given, Ok(Some(bytes)) if bytes == "a".as_bytes()));
}

#[test]
fn decoding_with_other_symbols_than_were_written_finds_other_bits() {
    let hidden = encode_hidden(String::from("a"), Some('0'), Some('1')).unwrap();
    // read the other way round, 01100001 is 10011110
    let decoded = decode_hidden(hidden, Some('1'), Some('0'));
    assert!(matches!(decoded, Ok(Some(bytes)) if bytes == [0x9e]));
}

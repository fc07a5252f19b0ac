use json_stream_rs_tokenizer::char_or_eof::CharOrEof;
use json_stream_rs_tokenizer::error::{JsonStreamingError, ParsingError};
use json_stream_rs_tokenizer::text::{
    advance, advance_by, chars_of, hex_digit_value, push_lower_hex,
};
use json_stream_rs_tokenizer::unicode_utils::{decode_surrogate_pair, is_surrogate, UnicodeError};

#[test]
fn surrogate_range() {
    assert!(!is_surrogate(0x0041));
    assert!(!is_surrogate(0xD7FF));
    assert!(is_surrogate(0xD800));
    assert!(is_surrogate(0xDBFF));
    assert!(is_surrogate(0xDC00));
    assert!(is_surrogate(0xDFFF));
    assert!(!is_surrogate(0xE000));
    assert!(!is_surrogate(0xFFFF));
}

#[test]
fn pair_decodes_to_the_character_above_the_basic_plane() {
    assert_eq!(decode_surrogate_pair(0xD83D, 0xDE00), Ok('\u{1F600}'));
    assert_eq!(decode_surrogate_pair(0xD800, 0xDC00), Ok('\u{10000}'));
    assert_eq!(decode_surrogate_pair(0xDBFF, 0xDFFF), Ok('\u{10FFFF}'));
    assert_eq!(decode_surrogate_pair(0xD834, 0xDD1E), Ok('\u{1D11E}'));
}

#[test]
fn first_unit_that_is_no_surrogate_is_a_character_by_itself() {
    assert_eq!(decode_surrogate_pair(0x0041, 0x0042), Ok('A'));
    assert_eq!(decode_surrogate_pair(0x20AC, 0xDC00), Ok('\u{20AC}'));
    assert_eq!(decode_surrogate_pair(0xFFFF, 0xD800), Ok('\u{FFFF}'));
}

#[test]
fn surrogate_without_fitting_partner_is_named_in_the_error() {
    assert_eq!(
        decode_surrogate_pair(0xDE00, 0xD83D),
        Err(UnicodeError::InvalidSurrogatePair(
            "couldn't parse surrogate pair: unpaired surrogate found: de00".to_owned()
        ))
    );
    assert_eq!(
        decode_surrogate_pair(0xD83D, 0x0041),
        Err(UnicodeError::InvalidSurrogatePair(
            "couldn't parse surrogate pair: unpaired surrogate found: d83d".to_owned()
        ))
    );
    assert_eq!(
        decode_surrogate_pair(0xD83D, 0xD83D),
        Err(UnicodeError::InvalidSurrogatePair(
            "couldn't parse surrogate pair: unpaired surrogate found: d83d".to_owned()
        ))
    );
}

#[test]
fn unicode_errors_in_words() {
    assert_eq!(UnicodeError::InvalidUnicode("x".to_owned()).message(), "x");
    assert_eq!(
        UnicodeError::InvalidSurrogatePair("x".to_owned()).message(),
        "Error parsing surrogate pair: x"
    );
    assert_eq!(
        UnicodeError::Weirdness("x".to_owned()).message(),
        "Weirdness that should never happen: x"
    );
    assert_eq!(UnicodeError::Unknown.message(), "Unknown error");
}

#[test]
fn parsing_errors_in_words() {
    assert_eq!(ParsingError::InvalidJson("x".to_owned()).message(), "x");
    assert_eq!(
        ParsingError::Limitation("x".to_owned()).message(),
        "Error due to limitation: x"
    );
    assert_eq!(ParsingError::Unknown.message(), "Unknown error");
}

#[test]
fn unicode_error_becomes_a_parsing_error() {
    assert_eq!(
        ParsingError::from(UnicodeError::InvalidSurrogatePair("x".to_owned())),
        ParsingError::InvalidJson(
            "error parsing unicode: Error parsing surrogate pair: x".to_owned()
        )
    );
}

#[test]
fn errors_become_streaming_errors() {
    match JsonStreamingError::from(ParsingError::Unknown) {
        JsonStreamingError::ParsingError(ParsingError::Unknown) => {}
        other => panic!("{:?}", other),
    }
    let io = std::io::Error::new(std::io::ErrorKind::Other, "gone");
    match JsonStreamingError::from(io) {
        JsonStreamingError::IOError(e) => assert_eq!(e.to_string(), "gone"),
        other => panic!("{:?}", other),
    }
}

#[test]
fn char_or_eof_from_its_parts() {
    assert_eq!(CharOrEof::from(Some('a')), CharOrEof::Char('a'));
    assert_eq!(CharOrEof::from(None), CharOrEof::Eof);
    assert_eq!(CharOrEof::from('b'), CharOrEof::Char('b'));
}

#[test]
fn char_or_eof_in_messages() {
    assert_eq!(CharOrEof::Char('a').debug_text(), "'a'");
    assert_eq!(CharOrEof::Char('\'').debug_text(), "'\\''");
    assert_eq!(CharOrEof::Char('\t').debug_text(), "'\\t'");
    assert_eq!(CharOrEof::Eof.debug_text(), "EOF");
    assert_eq!(CharOrEof::Char('a').display_text(), "a");
    assert_eq!(CharOrEof::Eof.display_text(), "");
}

#[test]
fn lower_hex_without_leading_zeros() {
    for (value, text) in [(0u16, "0"), (9, "9"), (10, "a"), (15, "f"), (16, "10"), (0xd83d, "d83d"), (0xffff, "ffff"), (0x0a0b, "a0b")] {
        let mut s = String::from(">");
        push_lower_hex(&mut s, value);
        assert_eq!(s, format!(">{}", text));
    }
}

#[test]
fn hex_digits_of_either_case() {
    assert_eq!(hex_digit_value('0'), Some(0));
    assert_eq!(hex_digit_value('9'), Some(9));
    assert_eq!(hex_digit_value('a'), Some(10));
    assert_eq!(hex_digit_value('F'), Some(15));
    assert_eq!(hex_digit_value('g'), None);
    assert_eq!(hex_digit_value('+'), None);
    assert_eq!(hex_digit_value('\u{663}'), None);
}

#[test]
fn position_counter_stops_at_its_largest_value() {
    assert_eq!(advance(-1), 0);
    assert_eq!(advance(41), 42);
    assert_eq!(advance(i64::MAX), i64::MAX);
    assert_eq!(advance_by(5, 7), 12);
    assert_eq!(advance_by(i64::MAX - 1, 7), i64::MAX);
}

#[test]
fn characters_of_a_text() {
    assert_eq!(chars_of("a\u{e9}\u{1F600}"), vec!['a', '\u{e9}', '\u{1F600}']);
    assert_eq!(chars_of(""), Vec::<char>::new());
}

use json_stream_rs_tokenizer::integer::{supports_bigint, AppropriateInt, ParseIntError};
use num_bigint::BigInt;

fn big(text: &str) -> AppropriateInt {
    AppropriateInt::Big(text.parse::<BigInt>().unwrap())
}

#[test]
fn small_numbers_are_normal() {
    assert_eq!(AppropriateInt::from_str("0"), Ok(AppropriateInt::Normal(0)));
    assert_eq!(AppropriateInt::from_str("-0"), Ok(AppropriateInt::Normal(0)));
    assert_eq!(AppropriateInt::from_str("42"), Ok(AppropriateInt::Normal(42)));
    assert_eq!(AppropriateInt::from_str("-17"), Ok(AppropriateInt::Normal(-17)));
    assert_eq!(AppropriateInt::from_str("+5"), Ok(AppropriateInt::Normal(5)));
    assert_eq!(AppropriateInt::from_str("007"), Ok(AppropriateInt::Normal(7)));
}

#[test]
fn the_ends_of_the_machine_range_are_normal() {
    assert_eq!(
        AppropriateInt::from_str("9223372036854775807"),
        Ok(AppropriateInt::Normal(i64::MAX))
    );
    assert_eq!(
        AppropriateInt::from_str("-9223372036854775808"),
        Ok(AppropriateInt::Normal(i64::MIN))
    );
}

#[test]
fn one_beyond_the_machine_range_is_big() {
    assert_eq!(
        AppropriateInt::from_str("9223372036854775808"),
        Ok(big("9223372036854775808"))
    );
    assert_eq!(
        AppropriateInt::from_str("-9223372036854775809"),
        Ok(big("-9223372036854775809"))
    );
    assert_eq!(
        AppropriateInt::from_str("+18446744073709551616"),
        Ok(big("18446744073709551616"))
    );
}

#[test]
fn big_number_keeps_every_digit() {
    let text = "-123456789012345678901234567890";
    match AppropriateInt::from_str(text) {
        Ok(AppropriateInt::Big(b)) => assert_eq!(b.to_string(), text),
        other => panic!("{:?}", other),
    }
}

#[test]
fn empty_text_is_no_integer() {
    assert_eq!(
        AppropriateInt::from_str(""),
        Err(ParseIntError::General("ParseIntError { kind: Empty }".to_owned()))
    );
}

#[test]
fn text_with_anything_but_digits_is_no_integer() {
    for text in ["-", "+", "abc", "12a", "1_000", "1.5", " 1", "1 ", "--1", "99999999999999999999x", "99999999999999999999_9", "\u{663}"] {
        assert_eq!(
            AppropriateInt::from_str(text),
            Err(ParseIntError::General(
                "ParseIntError { kind: InvalidDigit }".to_owned()
            )),
            "{:?}",
            text
        );
    }
}

#[test]
fn integer_errors_in_words() {
    assert_eq!(
        ParseIntError::General("x".to_owned()).message(),
        "general integer parsing error: x"
    );
    assert_eq!(
        ParseIntError::TooLargeOrSmall.message(),
        "integer too large or small"
    );
}

#[test]
fn big_integers_are_supported() {
    assert!(supports_bigint());
}

#[test]
fn integers_parse_from_text() {
    assert_eq!("42".parse::<AppropriateInt>(), Ok(AppropriateInt::Normal(42)));
    assert_eq!(
        "99999999999999999999".parse::<AppropriateInt>(),
        Ok(big("99999999999999999999"))
    );
    assert!("4 2".parse::<AppropriateInt>().is_err());
}

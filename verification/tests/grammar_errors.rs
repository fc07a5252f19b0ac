use json_stream_rs_tokenizer::char_or_eof::CharOrEof;
use json_stream_rs_tokenizer::error::{JsonStreamingError, ParsingError};
use json_stream_rs_tokenizer::integer::AppropriateInt;
use json_stream_rs_tokenizer::memory_stream::MemoryTextStream;
use json_stream_rs_tokenizer::suitable_unbuffered_text_stream::SuitableUnbufferedTextStream;
use json_stream_rs_tokenizer::tokenizer::{
    complain, is_delimiter, is_operator, transition, Complaint, Lexeme, RustTokenizer, State,
    Step, Token,
};

/// Reads tokens until the first error; returns the tokens, the text of the
/// error and the place where it was found.
fn first_error(text: &str) -> (Vec<Token>, String, i64) {
    let mut t = RustTokenizer::new(
        SuitableUnbufferedTextStream::new(MemoryTextStream::new(text)),
        false,
    );
    let mut tokens = Vec::new();
    loop {
        match t.next_token() {
            Ok(Some(token)) => tokens.push(token),
            Ok(None) => panic!("{:?} has no error; tokens: {:?}", text, tokens),
            Err(JsonStreamingError::ParsingError(ParsingError::InvalidJson(m))) => {
                return (tokens, m, t.index())
            }
            Err(other) => panic!("{:?}", other),
        }
    }
}

#[test]
fn stray_character_is_invalid() {
    let (tokens, message, index) = first_error("[ x");
    assert_eq!(tokens, vec![Token::Operator('[')]);
    assert_eq!(message, "Invalid JSON character: 'x'");
    assert_eq!(index, 2);
}

#[test]
fn letter_within_digits_is_refused() {
    let (_, message, index) = first_error("12x");
    assert_eq!(message, "A number must contain only digits.  Got 'x'");
    assert_eq!(index, 2);
}

#[test]
fn digit_after_leading_zero_is_refused() {
    let (_, message, index) = first_error("01");
    assert_eq!(message, "A 0 must be followed by a '.' | a 'e'.  Got '1'");
    assert_eq!(index, 1);
    let (_, message, _) = first_error("-01");
    assert_eq!(message, "A 0 must be followed by a '.' | a 'e'.  Got '1'");
}

#[test]
fn minus_needs_a_digit() {
    let (_, message, _) = first_error("-x");
    assert_eq!(message, "A - must be followed by a digit.  Got 'x'");
    let (_, message, index) = first_error("-");
    assert_eq!(message, "A - must be followed by a digit.  Got EOF");
    assert_eq!(index, 1);
}

#[test]
fn exponent_marker_needs_a_sign_or_a_digit() {
    let (_, message, _) = first_error("1ex");
    assert_eq!(
        message,
        "An e in a number must be followed by a '+', '-' | digit.  Got 'x'"
    );
    let (_, message, _) = first_error("1E");
    assert_eq!(
        message,
        "An e in a number must be followed by a '+', '-' | digit.  Got EOF"
    );
    let (_, message, _) = first_error("1.5e,");
    assert_eq!(
        message,
        "An e in a number must be followed by a '+', '-' | digit.  Got ','"
    );
}

#[test]
fn exponent_holds_only_digits() {
    let (_, message, index) = first_error("1e5x");
    assert_eq!(message, "A number exponent must consist only of digits.  Got 'x'");
    assert_eq!(index, 3);
    let (_, message, _) = first_error("1e+x");
    assert_eq!(message, "A number exponent must consist only of digits.  Got 'x'");
}

#[test]
fn exponent_sign_needs_a_digit() {
    let (_, message, index) = first_error("1e+ ");
    assert_eq!(message, "error parsing float: invalid float literal");
    assert_eq!(index, 3);
    let (_, message, _) = first_error("[1e-]");
    assert_eq!(message, "error parsing float: invalid float literal");
    let (_, message, _) = first_error("2E+");
    assert_eq!(message, "error parsing float: invalid float literal");
}

#[test]
fn fraction_holds_only_digits() {
    let (_, message, _) = first_error("1.5x");
    assert_eq!(message, "A number must include only digits");
}

#[test]
fn decimal_point_needs_a_fraction() {
    let (_, message, index) = first_error("1.x");
    assert_eq!(
        message,
        "A number with a decimal point must be followed by a fractional part"
    );
    assert_eq!(index, 2);
    let (_, message, _) = first_error("0.");
    assert_eq!(
        message,
        "A number with a decimal point must be followed by a fractional part"
    );
}

#[test]
fn string_must_be_followed_by_a_delimiter() {
    let (tokens, message, index) = first_error("\"a\"x");
    assert_eq!(tokens, vec![Token::String_(Some("a".to_owned()))]);
    assert_eq!(message, "Expected whitespace | an operator after strin.  Got 'x'");
    assert_eq!(index, 3);
}

#[test]
fn keyword_must_be_spelled_out() {
    let (_, message, index) = first_error("trux");
    assert_eq!(message, "Invalid JSON character: 'x'");
    assert_eq!(index, 3);
    let (_, message, _) = first_error("tru");
    assert_eq!(message, "Invalid JSON character: EOF");
    let (_, message, _) = first_error("nul ");
    assert_eq!(message, "Invalid JSON character: ' '");
    let (_, message, _) = first_error("fals,");
    assert_eq!(message, "Invalid JSON character: ','");
}

#[test]
fn keyword_must_be_followed_by_a_delimiter() {
    let (tokens, message, index) = first_error("truex");
    assert_eq!(tokens, vec![]);
    assert_eq!(message, "Invalid JSON character: 'x'");
    assert_eq!(index, 4);
    let (tokens, message, _) = first_error("[null1]");
    assert_eq!(tokens, vec![Token::Operator('[')]);
    assert_eq!(message, "Invalid JSON character: '1'");
    let (_, message, _) = first_error("falsefalse");
    assert_eq!(message, "Invalid JSON character: 'f'");
}

#[test]
fn delimiter_is_looked_at_again_as_the_next_token() {
    let mut t = RustTokenizer::new(
        SuitableUnbufferedTextStream::new(MemoryTextStream::new("[12,true]")),
        false,
    );
    assert_eq!(t.next_token().unwrap(), Some(Token::Operator('[')));
    assert_eq!(
        t.next_token().unwrap(),
        Some(Token::Integer(AppropriateInt::Normal(12)))
    );
    // the comma has been read already, to end the number
    assert_eq!(t.index(), 3);
    assert_eq!(t.next_token().unwrap(), Some(Token::Operator(',')));
    assert_eq!(t.index(), 3);
    assert_eq!(t.next_token().unwrap(), Some(Token::Boolean(true)));
    assert_eq!(t.index(), 8);
    assert_eq!(t.next_token().unwrap(), Some(Token::Operator(']')));
    assert_eq!(t.index(), 8);
    assert_eq!(t.next_token().unwrap(), None);
    assert_eq!(t.index(), 9);
}

#[test]
fn whitespace_of_any_script_separates_tokens() {
    let mut t = RustTokenizer::new(
        SuitableUnbufferedTextStream::new(MemoryTextStream::new(
            " \t\r\n1\u{a0}2\u{2003}null\u{3000}",
        )),
        false,
    );
    assert_eq!(
        t.next_token().unwrap(),
        Some(Token::Integer(AppropriateInt::Normal(1)))
    );
    assert_eq!(
        t.next_token().unwrap(),
        Some(Token::Integer(AppropriateInt::Normal(2)))
    );
    assert_eq!(t.next_token().unwrap(), Some(Token::Null));
    assert_eq!(t.next_token().unwrap(), None);
}

#[test]
fn delimiters_are_whitespace_operators_and_the_end() {
    for c in "{}[]:, \n\t\u{a0}".chars() {
        assert!(is_delimiter(CharOrEof::Char(c)), "{:?}", c);
    }
    assert!(is_delimiter(CharOrEof::Eof));
    for c in "a1\"-.e".chars() {
        assert!(!is_delimiter(CharOrEof::Char(c)), "{:?}", c);
    }
    for c in "{}[]:,".chars() {
        assert!(is_operator(c));
    }
    assert!(!is_operator(' '));
}

#[test]
fn transition_table_entries() {
    assert_eq!(
        transition(State::Whitespace, CharOrEof::Char('{')),
        Step::Emit(Lexeme::Operator('{'), State::Whitespace, false)
    );
    assert_eq!(
        transition(State::Whitespace, CharOrEof::Char('"')),
        Step::Emit(Lexeme::StringStart, State::StringEnd, false)
    );
    assert_eq!(
        transition(State::Whitespace, CharOrEof::Char('7')),
        Step::Keep(State::Integer)
    );
    assert_eq!(
        transition(State::Whitespace, CharOrEof::Eof),
        Step::Skip(State::Whitespace)
    );
    assert_eq!(
        transition(State::Integer, CharOrEof::Char(',')),
        Step::Emit(Lexeme::Integer, State::Whitespace, true)
    );
    assert_eq!(
        transition(State::Integer0, CharOrEof::Eof),
        Step::Emit(Lexeme::Zero, State::Whitespace, true)
    );
    assert_eq!(
        transition(State::IntegerExp0, CharOrEof::Char('-')),
        Step::Keep(State::IntegerExpSign)
    );
    assert_eq!(
        transition(State::IntegerExpSign, CharOrEof::Char(' ')),
        Step::Fail(Complaint::ExponentMissing)
    );
    assert_eq!(
        transition(State::FloatingPoint, CharOrEof::Char('E')),
        Step::Keep(State::IntegerExp0)
    );
    assert_eq!(
        transition(State::True3, CharOrEof::Char('e')),
        Step::Skip(State::TrueEnd)
    );
    assert_eq!(
        transition(State::TrueEnd, CharOrEof::Char(']')),
        Step::Emit(Lexeme::Boolean(true), State::Whitespace, true)
    );
    assert_eq!(
        transition(State::NullEnd, CharOrEof::Eof),
        Step::Emit(Lexeme::Null, State::Whitespace, true)
    );
    assert_eq!(
        transition(State::StringEnd, CharOrEof::Char(':')),
        Step::Pass(State::Whitespace)
    );
    assert_eq!(
        transition(State::StringEnd, CharOrEof::Char('a')),
        Step::Fail(Complaint::AfterString)
    );
}

#[test]
fn complaints_quote_the_character() {
    assert_eq!(
        complain(Complaint::InvalidCharacter, CharOrEof::Char('\n')),
        ParsingError::InvalidJson("Invalid JSON character: '\\n'".to_owned())
    );
    assert_eq!(
        complain(Complaint::AfterString, CharOrEof::Eof),
        ParsingError::InvalidJson(
            "Expected whitespace | an operator after strin.  Got EOF".to_owned()
        )
    );
}

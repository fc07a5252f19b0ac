use json_stream_rs_tokenizer::error::{JsonStreamingError, ParsingError};
use json_stream_rs_tokenizer::integer::AppropriateInt;
use json_stream_rs_tokenizer::memory_stream::MemoryTextStream;
use json_stream_rs_tokenizer::suitable_seekable_buffered_text_stream::SuitableSeekableBufferedTextStream;
use json_stream_rs_tokenizer::suitable_unbuffered_text_stream::SuitableUnbufferedTextStream;
use json_stream_rs_tokenizer::tokenizer::{RustTokenizer, Token, TokenType};

type Unbuffered = RustTokenizer<SuitableUnbufferedTextStream<MemoryTextStream>>;

fn tokenizer(text: &str) -> Unbuffered {
    RustTokenizer::new(
        SuitableUnbufferedTextStream::new(MemoryTextStream::new(text)),
        false,
    )
}

fn all_tokens(text: &str) -> Result<Vec<Token>, JsonStreamingError> {
    let mut t = tokenizer(text);
    let mut tokens = Vec::new();
    while let Some(token) = t.next_token()? {
        tokens.push(token);
    }
    Ok(tokens)
}

fn string(s: &str) -> Token {
    Token::String_(Some(s.to_owned()))
}

fn integer(n: i64) -> Token {
    Token::Integer(AppropriateInt::Normal(n))
}

fn invalid_json(r: Result<Vec<Token>, JsonStreamingError>) -> String {
    match r {
        Err(JsonStreamingError::ParsingError(ParsingError::InvalidJson(m))) => m,
        other => panic!("expected a grammar error, got {:?}", other),
    }
}

#[test]
fn document_decomposes_into_its_tokens() {
    let tokens = all_tokens("{\"a\":1,\"b\":[true,null]}").unwrap();
    assert_eq!(
        tokens,
        vec![
            Token::Operator('{'),
            string("a"),
            Token::Operator(':'),
            integer(1),
            Token::Operator(','),
            string("b"),
            Token::Operator(':'),
            Token::Operator('['),
            Token::Boolean(true),
            Token::Operator(','),
            Token::Null,
            Token::Operator(']'),
            Token::Operator('}'),
        ]
    );
}

#[test]
fn token_types_follow_the_tokens() {
    assert_eq!(Token::Operator('{').token_type(), TokenType::Operator);
    assert_eq!(string("a").token_type(), TokenType::String_);
    assert_eq!(integer(1).token_type(), TokenType::Number);
    assert_eq!(Token::Float("1.5".to_owned()).token_type(), TokenType::Number);
    assert_eq!(Token::Boolean(false).token_type(), TokenType::Boolean);
    assert_eq!(Token::Null.token_type(), TokenType::Null);
}

#[test]
fn zero_and_minus_zero_are_integer_zero() {
    assert_eq!(all_tokens("0").unwrap(), vec![integer(0)]);
    assert_eq!(all_tokens("-0").unwrap(), vec![integer(0)]);
}

#[test]
fn exponent_makes_a_float() {
    let tokens = all_tokens("1e10").unwrap();
    assert_eq!(tokens, vec![Token::Float("1e10".to_owned())]);
    match &tokens[0] {
        Token::Float(text) => assert_eq!(text.parse::<f64>().unwrap(), 1e10),
        other => panic!("{:?}", other),
    }
}

#[test]
fn fraction_and_negative_exponent_make_a_float() {
    let tokens = all_tokens("1.5e-3").unwrap();
    match &tokens[0] {
        Token::Float(text) => assert_eq!(text.parse::<f64>().unwrap(), 0.0015),
        other => panic!("{:?}", other),
    }
}

#[test]
fn thirty_digits_make_a_big_integer() {
    let text = "123456789012345678901234567890";
    let tokens = all_tokens(text).unwrap();
    let expected: num_bigint::BigInt = text.parse().unwrap();
    assert_eq!(tokens, vec![Token::Integer(AppropriateInt::Big(expected))]);
}

#[test]
fn empty_string_token() {
    assert_eq!(all_tokens("\"\"").unwrap(), vec![string("")]);
}

#[test]
fn surrogate_pair_is_one_character() {
    let tokens = all_tokens("\"\\ud83d\\ude00\"").unwrap();
    assert_eq!(tokens, vec![string("\u{1F600}")]);
}

#[test]
fn lone_surrogate_is_refused() {
    let message = invalid_json(all_tokens("\"\\ud83d\""));
    assert_eq!(message, "Unpaired UTF-16 surrogate");
}

#[test]
fn unterminated_string_is_reported_at_the_end_of_input() {
    let mut t = tokenizer("\"abc");
    match t.next_token() {
        Err(JsonStreamingError::ParsingError(ParsingError::InvalidJson(m))) => {
            assert_eq!(m, "Unterminated string at end of file")
        }
        other => panic!("{:?}", other),
    }
    assert_eq!(t.index(), 4);
}

#[test]
fn end_of_input_is_reported_again_and_again() {
    let mut t = tokenizer("[1] ");
    while t.next_token().unwrap().is_some() {}
    let index = t.index();
    for _ in 0..3 {
        assert_eq!(t.next_token().unwrap(), None);
        assert_eq!(t.index(), index);
    }
    assert_eq!(index, 4);
}

#[test]
fn parking_leaves_the_stream_right_behind_the_document() {
    for chunk in [1usize, 2, 3, 5, 8, 100] {
        for limit in [1usize, 2, 7] {
            let host = MemoryTextStream::with_read_limit("{\"a\": [1, 2]}\u{e9}tail of the stream", limit);
            let source = SuitableSeekableBufferedTextStream::new(host, chunk);
            let mut t = RustTokenizer::new(source, false);
            let mut depth = 0;
            loop {
                match t.next_token().unwrap().unwrap() {
                    Token::Operator('{') | Token::Operator('[') => depth += 1,
                    Token::Operator('}') | Token::Operator(']') => depth -= 1,
                    _ => {}
                }
                if depth == 0 {
                    break;
                }
            }
            t.park_cursor().unwrap();
            let host = t.into_stream().into_inner();
            assert_eq!(host.rest(), "\u{e9}tail of the stream");
        }
    }
}

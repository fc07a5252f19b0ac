use json_stream_rs_tokenizer::char_or_eof::CharOrEof;
use json_stream_rs_tokenizer::error::{JsonStreamingError, ParsingError};
use json_stream_rs_tokenizer::integer::AppropriateInt;
use json_stream_rs_tokenizer::json_string_reader::JsonStringReader;
use json_stream_rs_tokenizer::memory_stream::MemoryTextStream;
use json_stream_rs_tokenizer::suitable_unbuffered_text_stream::SuitableUnbufferedTextStream;
use json_stream_rs_tokenizer::tokenizer::{RustTokenizer, Token};

type Source = SuitableUnbufferedTextStream<MemoryTextStream>;

fn source(text: &str) -> Source {
    SuitableUnbufferedTextStream::new(MemoryTextStream::new(text))
}

fn tokenizer(text: &str, strings_as_files: bool) -> RustTokenizer<Source> {
    RustTokenizer::new(source(text), strings_as_files)
}

fn one_string(text: &str) -> String {
    let mut t = tokenizer(text, false);
    match t.next_token().unwrap() {
        Some(Token::String_(Some(s))) => {
            assert_eq!(t.next_token().unwrap(), None);
            s
        }
        other => panic!("{:?}", other),
    }
}

fn string_error(text: &str) -> (String, i64) {
    let mut t = tokenizer(text, false);
    match t.next_token() {
        Err(JsonStreamingError::ParsingError(ParsingError::InvalidJson(m))) => (m, t.index()),
        other => panic!("{:?}", other),
    }
}

#[test]
fn plain_string() {
    assert_eq!(one_string("\"hello, world\""), "hello, world");
    assert_eq!(one_string("\"{[1, true]}\""), "{[1, true]}");
}

#[test]
fn short_escapes_stand_for_their_characters() {
    assert_eq!(
        one_string(r#""\\ \" \/ \b \f \n \r \t""#),
        "\\ \" / \u{8} \u{c} \n \r \t"
    );
}

#[test]
fn unicode_escape_of_either_case() {
    assert_eq!(one_string(r#""\u0041""#), "A");
    assert_eq!(one_string(r#""\u00e9\u00E9""#), "\u{e9}\u{e9}");
    assert_eq!(one_string(r#""\uffff""#), "\u{ffff}");
    assert_eq!(one_string(r#""a\u0000b""#), "a\u{0}b");
}

#[test]
fn surrogate_pairs_at_the_ends_of_their_range() {
    assert_eq!(one_string(r#""\ud800\udc00""#), "\u{10000}");
    assert_eq!(one_string(r#""\udbff\udfff""#), "\u{10ffff}");
    assert_eq!(one_string(r#""x\uD83D\uDE00y""#), "x\u{1F600}y");
}

#[test]
fn unknown_escape_is_refused() {
    let (message, index) = string_error(r#""ab\q""#);
    assert_eq!(message, "Invalid string escape: q");
    assert_eq!(index, 4);
}

#[test]
fn unicode_escape_needs_four_hex_digits() {
    let (message, index) = string_error(r#""\u12g4""#);
    assert_eq!(message, "Invalid unicode literal: \\u12g4");
    assert_eq!(index, 6);
    let (message, _) = string_error(r#""\u+123""#);
    assert_eq!(message, "Invalid unicode literal: \\u+123");
    let (message, _) = string_error("\"\\u12\u{e9}4\"");
    assert_eq!(message, "Invalid unicode literal: \\u12\u{e9}4");
}

#[test]
fn input_ending_within_a_unicode_escape() {
    let (message, index) = string_error(r#""\u12"#);
    assert_eq!(message, "Unterminated unicode literal at end of file");
    assert_eq!(index, 5);
    let (message, _) = string_error(r#""\ud83d\ude"#);
    assert_eq!(message, "Unterminated unicode literal at end of file");
}

#[test]
fn input_ending_within_a_string() {
    let (message, index) = string_error("  \"abc");
    assert_eq!(message, "Unterminated string at end of file");
    assert_eq!(index, 6);
    let (message, index) = string_error("\"abc\\");
    assert_eq!(message, "Unterminated string at end of file");
    assert_eq!(index, 5);
    let (message, index) = string_error("\"");
    assert_eq!(message, "Unterminated string at end of file");
    assert_eq!(index, 1);
}

#[test]
fn surrogate_without_partner() {
    let (message, _) = string_error(r#""\ud83dx""#);
    assert_eq!(message, "Unpaired UTF-16 surrogate");
    let (message, _) = string_error(r#""\ud83d\n""#);
    assert_eq!(message, "Unpaired UTF-16 surrogate");
    let (message, _) = string_error(r#""\ude00""#);
    assert_eq!(message, "Unpaired UTF-16 surrogate");
    let (message, index) = string_error(r#""\ud83d"#);
    assert_eq!(message, "Unpaired UTF-16 surrogate at end of file");
    assert_eq!(index, 7);
    let (message, _) = string_error(r#""\ud83d\"#);
    assert_eq!(message, "Unpaired UTF-16 surrogate at end of file");
}

#[test]
fn surrogate_followed_by_an_ordinary_escape() {
    let (message, _) = string_error(r#""\ud83d\u0041""#);
    assert_eq!(
        message,
        "Second half of UTF-16 surrogate pair is not a surrogate!"
    );
}

#[test]
fn surrogates_in_the_wrong_order() {
    let (message, index) = string_error(r#""\ude00\ud83d""#);
    assert_eq!(message, "Error decoding UTF-16 surrogate pair \\ude00\\ud83d");
    assert_eq!(index, 12);
    let (message, _) = string_error(r#""\uD83D\uD83D""#);
    assert_eq!(message, "Error decoding UTF-16 surrogate pair \\ud83d\\ud83d");
}

#[test]
fn reader_feeds_on_single_characters() {
    let mut reader = JsonStringReader::new();
    assert_eq!(reader.process_char(CharOrEof::Char('a')), Ok(Some(CharOrEof::Char('a'))));
    assert_eq!(reader.process_char(CharOrEof::Char('\\')), Ok(None));
    assert_eq!(reader.process_char(CharOrEof::Char('n')), Ok(Some(CharOrEof::Char('\n'))));
    assert_eq!(reader.process_char(CharOrEof::Char('\\')), Ok(None));
    assert_eq!(reader.process_char(CharOrEof::Char('u')), Ok(None));
    assert_eq!(reader.process_char(CharOrEof::Char('0')), Ok(None));
    assert_eq!(reader.process_char(CharOrEof::Char('0')), Ok(None));
    assert_eq!(reader.process_char(CharOrEof::Char('4')), Ok(None));
    assert_eq!(reader.process_char(CharOrEof::Char('1')), Ok(Some(CharOrEof::Char('A'))));
    assert_eq!(reader.process_char(CharOrEof::Char('"')), Ok(Some(CharOrEof::Eof)));
    assert_eq!(
        reader.process_char(CharOrEof::Eof),
        Err(ParsingError::InvalidJson(
            "Unterminated string at end of file".to_owned()
        ))
    );
    assert_eq!(reader.index(), 0);
}

#[test]
fn reader_reads_in_pieces() {
    let mut stream = source("hello\\nworld\" and more");
    let mut reader = JsonStringReader::new();
    assert_eq!(reader.read(&mut stream, Some(3)).unwrap(), "hel");
    assert_eq!(reader.index(), 3);
    assert_eq!(reader.read(&mut stream, Some(0)).unwrap(), "");
    assert_eq!(reader.read(&mut stream, Some(4)).unwrap(), "lo\nw");
    assert_eq!(reader.index(), 8);
    assert_eq!(reader.read(&mut stream, Some(-1)).unwrap(), "orld");
    assert_eq!(reader.index(), 13);
    assert_eq!(reader.read(&mut stream, None).unwrap(), "");
    assert_eq!(reader.read(&mut stream, Some(5)).unwrap(), "");
    assert_eq!(reader.index(), 13);
    assert_eq!(stream.into_inner().rest(), " and more");
}

#[test]
fn reader_counts_the_size_in_bytes_of_utf8() {
    let mut stream = source("\u{e9}\u{e9}\u{e9}\u{e9}\"");
    let mut reader = JsonStringReader::new();
    assert_eq!(reader.read(&mut stream, Some(1)).unwrap(), "\u{e9}");
    assert_eq!(reader.read(&mut stream, Some(3)).unwrap(), "\u{e9}\u{e9}");
    assert_eq!(reader.read_string_contents(&mut stream, Some(100)).unwrap(), "\u{e9}");
    assert_eq!(reader.read_string_contents(&mut stream, Some(100)).unwrap(), "");
}

#[test]
fn reader_reads_line_by_line() {
    let mut stream = source("ab\ncd\\nef\n\"tail");
    let mut reader = JsonStringReader::new();
    assert_eq!(reader.readline(&mut stream, None).unwrap(), Some("ab\n".to_owned()));
    assert_eq!(reader.readline(&mut stream, Some(2)).unwrap(), Some("cd".to_owned()));
    assert_eq!(reader.readline(&mut stream, Some(0)).unwrap(), Some("".to_owned()));
    assert_eq!(reader.readline(&mut stream, Some(-5)).unwrap(), Some("\n".to_owned()));
    assert_eq!(
        reader.read_until_newline(&mut stream, None).unwrap(),
        Some("ef\n".to_owned())
    );
    assert_eq!(reader.readline(&mut stream, None).unwrap(), Some("".to_owned()));
    assert_eq!(reader.readline(&mut stream, None).unwrap(), None);
    assert_eq!(reader.readline(&mut stream, Some(0)).unwrap(), Some("".to_owned()));
    assert_eq!(reader.read_until_newline(&mut stream, Some(3)).unwrap(), None);
    assert_eq!(stream.into_inner().rest(), "tail");
}

#[test]
fn reader_reads_one_item_at_a_time() {
    let mut stream = source("a\\u00e9\\ud83d\\ude00\"");
    let mut reader = JsonStringReader::new();
    assert_eq!(
        reader.read_and_process_until_1_char(&mut stream).unwrap(),
        CharOrEof::Char('a')
    );
    assert_eq!(reader.index(), 1);
    assert_eq!(
        reader.read_and_process_until_1_char(&mut stream).unwrap(),
        CharOrEof::Char('\u{e9}')
    );
    assert_eq!(reader.index(), 7);
    assert_eq!(
        reader.read_and_process_until_1_char(&mut stream).unwrap(),
        CharOrEof::Char('\u{1F600}')
    );
    assert_eq!(reader.index(), 19);
    assert_eq!(
        reader.read_and_process_until_1_char(&mut stream).unwrap(),
        CharOrEof::Eof
    );
    assert_eq!(reader.index(), 20);
}

#[test]
fn string_handed_out_piece_by_piece() {
    let mut t = tokenizer("[\"abc\", 1]", true);
    assert_eq!(t.parse_string_contents(None).unwrap(), None);
    assert_eq!(t.next_token().unwrap(), Some(Token::Operator('[')));
    assert_eq!(t.next_token().unwrap(), Some(Token::String_(None)));
    assert_eq!(t.index(), 1);
    assert_eq!(t.parse_string_contents(Some(2)).unwrap(), Some("ab".to_owned()));
    // what the open string has read is counted in only once it is closed
    assert_eq!(t.index(), 1);
    assert_eq!(t.position(), 3);
    // the rest of the string is read and dropped
    assert_eq!(t.next_token().unwrap(), Some(Token::Operator(',')));
    assert_eq!(t.index(), 6);
    assert_eq!(t.position(), 6);
    assert_eq!(t.parse_string_contents(None).unwrap(), None);
    assert_eq!(
        t.next_token().unwrap(),
        Some(Token::Integer(AppropriateInt::Normal(1)))
    );
    assert_eq!(t.next_token().unwrap(), Some(Token::Operator(']')));
    assert_eq!(t.next_token().unwrap(), None);
    assert_eq!(t.index(), 10);
}

#[test]
fn string_handed_out_and_read_to_its_end() {
    let mut t = tokenizer("\"abc\" ", true);
    assert_eq!(t.next_token().unwrap(), Some(Token::String_(None)));
    assert_eq!(t.parse_string_contents(None).unwrap(), Some("abc".to_owned()));
    assert_eq!(t.parse_string_contents(None).unwrap(), Some("".to_owned()));
    assert_eq!(t.parse_string_contents(Some(1)).unwrap(), Some("".to_owned()));
    assert_eq!(t.position(), 4);
    assert_eq!(t.next_token().unwrap(), None);
    assert_eq!(t.index(), 6);
}

#[test]
fn string_handed_out_and_never_read() {
    let mut t = tokenizer("{\"key\": \"value\"}", true);
    let mut kinds = Vec::new();
    while let Some(token) = t.next_token().unwrap() {
        kinds.push(token);
    }
    assert_eq!(
        kinds,
        vec![
            Token::Operator('{'),
            Token::String_(None),
            Token::Operator(':'),
            Token::String_(None),
            Token::Operator('}'),
        ]
    );
    assert_eq!(t.index(), 16);
}

#[test]
fn error_within_a_string_that_is_closed_by_the_tokenizer() {
    let mut t = tokenizer("[\"ab\\q\"]", true);
    assert_eq!(t.next_token().unwrap(), Some(Token::Operator('[')));
    assert_eq!(t.next_token().unwrap(), Some(Token::String_(None)));
    match t.next_token() {
        Err(JsonStreamingError::ParsingError(ParsingError::InvalidJson(m))) => {
            assert_eq!(m, "Invalid string escape: q")
        }
        other => panic!("{:?}", other),
    }
    assert_eq!(t.index(), 5);
}

#[test]
fn string_handed_out_line_by_line() {
    let mut t = tokenizer("[\"one\\ntwo\nthree\", 4]", true);
    assert_eq!(t.parse_string_line(None).unwrap(), None);
    assert_eq!(t.next_token().unwrap(), Some(Token::Operator('[')));
    assert_eq!(t.next_token().unwrap(), Some(Token::String_(None)));
    assert_eq!(t.parse_string_line(None).unwrap(), Some("one\n".to_owned()));
    assert_eq!(t.parse_string_line(Some(2)).unwrap(), Some("tw".to_owned()));
    assert_eq!(t.parse_string_line(None).unwrap(), Some("o\n".to_owned()));
    assert_eq!(t.parse_string_line(None).unwrap(), Some("three".to_owned()));
    assert_eq!(t.parse_string_line(None).unwrap(), None);
    assert_eq!(t.parse_string_contents(None).unwrap(), Some("".to_owned()));
    assert_eq!(t.next_token().unwrap(), Some(Token::Operator(',')));
    assert_eq!(
        t.next_token().unwrap(),
        Some(Token::Integer(AppropriateInt::Normal(4)))
    );
}

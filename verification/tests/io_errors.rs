use json_stream_rs_tokenizer::error::JsonStreamingError;
use json_stream_rs_tokenizer::host_stream::HostStream;
use json_stream_rs_tokenizer::integer::AppropriateInt;
use json_stream_rs_tokenizer::read_bytes::ReadBytes;
use json_stream_rs_tokenizer::read_string::ReadString;
use json_stream_rs_tokenizer::suitable_unbuffered_bytes_stream::SuitableUnbufferedBytesStream;
use json_stream_rs_tokenizer::suitable_unbuffered_text_stream::SuitableUnbufferedTextStream;
use json_stream_rs_tokenizer::suitable_unseekable_buffered_text_stream::SuitableUnseekableBufferedTextStream;
use json_stream_rs_tokenizer::tokenizer::{RustTokenizer, Token};
use json_stream_rs_tokenizer::utf8_char_source::Utf8CharSource;

/// A text stream that breaks down after a given number of characters.
struct Failing {
    text: Vec<char>,
    cursor: usize,
    good_for: usize,
}

impl Failing {
    fn new(text: &str, good_for: usize) -> Self {
        Failing { text: text.chars().collect(), cursor: 0, good_for }
    }
}

impl HostStream for Failing {
    type Unit = char;
}

impl ReadString for Failing {
    fn read_string(&mut self, size: usize) -> Result<String, std::io::Error> {
        if self.cursor >= self.good_for {
            return Err(std::io::Error::new(std::io::ErrorKind::Other, "connection lost"));
        }
        let end = (self.cursor + size).min(self.text.len()).min(self.good_for);
        let s: String = self.text[self.cursor..end].iter().collect();
        self.cursor = end;
        Ok(s)
    }
}

#[test]
fn host_failure_is_handed_on_by_the_source() {
    let mut source = SuitableUnbufferedTextStream::new(Failing::new("ab", 1));
    assert_eq!(source.read_char().unwrap(), Some('a'));
    let e = source.read_char().unwrap_err();
    assert_eq!(e.to_string(), "connection lost");
}

#[test]
fn host_failure_ends_the_token_stream_as_an_io_error() {
    let source = SuitableUnseekableBufferedTextStream::new(Failing::new("[1, 2]", 3), 2);
    let mut t = RustTokenizer::new(source, false);
    assert_eq!(t.next_token().unwrap(), Some(Token::Operator('[')));
    assert_eq!(
        t.next_token().unwrap(),
        Some(Token::Integer(AppropriateInt::Normal(1)))
    );
    assert_eq!(t.next_token().unwrap(), Some(Token::Operator(',')));
    match t.next_token() {
        Err(JsonStreamingError::IOError(e)) => assert_eq!(e.to_string(), "connection lost"),
        other => panic!("{:?}", other),
    }
}

/// A text stream that counts how often it is read.
struct Counting {
    text: Vec<char>,
    cursor: usize,
    reads: std::rc::Rc<std::cell::Cell<usize>>,
}

impl HostStream for Counting {
    type Unit = char;
}

impl ReadString for Counting {
    fn read_string(&mut self, size: usize) -> Result<String, std::io::Error> {
        self.reads.set(self.reads.get() + 1);
        let end = (self.cursor + size).min(self.text.len());
        let s: String = self.text[self.cursor..end].iter().collect();
        self.cursor = end;
        Ok(s)
    }
}

#[test]
fn source_is_not_asked_again_after_the_end() {
    let reads = std::rc::Rc::new(std::cell::Cell::new(0));
    let host = Counting { text: "[7]".chars().collect(), cursor: 0, reads: reads.clone() };
    let mut t = RustTokenizer::new(SuitableUnbufferedTextStream::new(host), false);
    assert_eq!(t.next_token().unwrap(), Some(Token::Operator('[')));
    assert_eq!(
        t.next_token().unwrap(),
        Some(Token::Integer(AppropriateInt::Normal(7)))
    );
    assert_eq!(t.next_token().unwrap(), Some(Token::Operator(']')));
    assert_eq!(reads.get(), 3);
    assert_eq!(t.next_token().unwrap(), None);
    // one read found the end
    assert_eq!(reads.get(), 4);
    for _ in 0..5 {
        assert_eq!(t.next_token().unwrap(), None);
        assert_eq!(reads.get(), 4);
        assert_eq!(t.index(), 3);
    }
}

#[test]
fn number_at_the_end_of_input_is_followed_by_the_end() {
    let reads = std::rc::Rc::new(std::cell::Cell::new(0));
    let host = Counting { text: "12".chars().collect(), cursor: 0, reads: reads.clone() };
    let mut t = RustTokenizer::new(SuitableUnbufferedTextStream::new(host), false);
    assert_eq!(
        t.next_token().unwrap(),
        Some(Token::Integer(AppropriateInt::Normal(12)))
    );
    // the end of input was read to end the number, and is held back
    assert_eq!(reads.get(), 3);
    assert_eq!(t.index(), 2);
    assert_eq!(t.next_token().unwrap(), None);
    assert_eq!(t.next_token().unwrap(), None);
    assert_eq!(reads.get(), 3);
    assert_eq!(t.index(), 2);
}

/// A byte stream that delivers two bytes more than it is asked for.
struct Greedy {
    bytes: Vec<u8>,
    cursor: usize,
    generous_from: usize,
}

impl HostStream for Greedy {
    type Unit = u8;
}

impl ReadBytes for Greedy {
    fn read_bytes(&mut self, size: usize) -> Result<Vec<u8>, std::io::Error> {
        let extra = if self.cursor >= self.generous_from { 2 } else { 0 };
        let end = (self.cursor + size + extra).min(self.bytes.len());
        let b = self.bytes[self.cursor..end].to_vec();
        self.cursor = end;
        Ok(b)
    }
}

#[test]
fn stream_that_delivers_more_than_asked_for_is_broken() {
    let host = Greedy { bytes: b"abcdef".to_vec(), cursor: 0, generous_from: 1 };
    let mut source = SuitableUnbufferedBytesStream::new(host);
    assert_eq!(source.read_char().unwrap(), Some('a'));
    assert_eq!(
        source.read_char().unwrap_err().to_string(),
        "broken stream: returns more bytes than requested"
    );
    let host = Greedy { bytes: "\u{4e2d}\u{4e2d}".as_bytes().to_vec(), cursor: 0, generous_from: 1 };
    let mut source = SuitableUnbufferedBytesStream::new(host);
    assert_eq!(
        source.read_char().unwrap_err().to_string(),
        "broken stream: returns more bytes than requested"
    );
}

use json_stream_rs_tokenizer::host_stream::HostStream;
use json_stream_rs_tokenizer::memory_stream::{MemoryBytesStream, MemoryTextStream};
use json_stream_rs_tokenizer::opaque_seek::{OpaqueSeek, OpaqueSeekFrom};
use json_stream_rs_tokenizer::park_cursor::ParkCursorChars;
use json_stream_rs_tokenizer::read_bytes::ReadBytes;
use json_stream_rs_tokenizer::read_rewind::{ReadRewind, RewindReader};
use json_stream_rs_tokenizer::read_string::ReadString;
use json_stream_rs_tokenizer::remainder::{Remainder, StreamData};
use json_stream_rs_tokenizer::suitable_seekable_buffered_bytes_stream::SuitableSeekableBufferedBytesStream;
use json_stream_rs_tokenizer::suitable_seekable_buffered_text_stream::SuitableSeekableBufferedTextStream;
use json_stream_rs_tokenizer::suitable_unbuffered_bytes_stream::SuitableUnbufferedBytesStream;
use json_stream_rs_tokenizer::suitable_unbuffered_text_stream::{
    char_of_single_read, SuitableUnbufferedTextStream,
};
use json_stream_rs_tokenizer::suitable_unseekable_buffered_bytes_stream::SuitableUnseekableBufferedBytesStream;
use json_stream_rs_tokenizer::suitable_unseekable_buffered_text_stream::SuitableUnseekableBufferedTextStream;
use json_stream_rs_tokenizer::tokenizer::{RustTokenizer, Token};
use json_stream_rs_tokenizer::utf8_char_source::Utf8CharSource;
use json_stream_rs_tokenizer::utf8_decode::{ByteBuffer, Decoded};

const TEXT: &str = "a\u{e9}\u{4e2d}\u{1F600}z";

fn read_all<S: Utf8CharSource>(source: &mut S) -> String {
    let mut s = String::new();
    while let Some(c) = source.read_char().unwrap() {
        s.push(c);
    }
    s
}

#[test]
fn memory_text_stream_reads_and_seeks() {
    let mut host = MemoryTextStream::new("h\u{e9}llo");
    assert_eq!(host.position(), 0);
    assert_eq!(host.read_string(2).unwrap(), "h\u{e9}");
    assert_eq!(host.position(), 2);
    let here = host.seek(OpaqueSeekFrom::Current).unwrap();
    assert_eq!(host.read_string(0).unwrap(), "");
    assert_eq!(host.read_string(10).unwrap(), "llo");
    assert_eq!(host.read_string(10).unwrap(), "");
    assert_eq!(host.rest(), "");
    let again = host.seek(OpaqueSeekFrom::Start(here)).unwrap();
    assert_eq!(again, here);
    assert_eq!(host.rest(), "llo");
    host.seek(OpaqueSeekFrom::End).unwrap();
    assert_eq!(host.position(), 5);
    assert_eq!(host.read_string(1).unwrap(), "");
}

#[test]
fn memory_text_stream_with_a_read_limit() {
    let mut host = MemoryTextStream::with_read_limit("hello", 2);
    assert_eq!(host.read_string(5).unwrap(), "he");
    assert_eq!(host.read_string(1).unwrap(), "l");
    assert_eq!(host.read_string(5).unwrap(), "lo");
    assert_eq!(host.read_string(5).unwrap(), "");
}

#[test]
fn memory_bytes_stream_reads_and_seeks() {
    let mut host = MemoryBytesStream::with_read_limit(vec![1, 2, 3, 4, 5], 3);
    assert_eq!(host.read_bytes(2).unwrap(), vec![1, 2]);
    let here = host.seek(OpaqueSeekFrom::Current).unwrap();
    assert_eq!(host.read_bytes(10).unwrap(), vec![3, 4, 5]);
    assert_eq!(host.read_bytes(10).unwrap(), Vec::<u8>::new());
    assert_eq!(host.position(), 5);
    host.seek(OpaqueSeekFrom::Start(here)).unwrap();
    assert_eq!(host.rest(), vec![3, 4, 5]);
    host.seek(OpaqueSeekFrom::End).unwrap();
    assert_eq!(host.rest(), Vec::<u8>::new());
    let mut host = MemoryBytesStream::new(vec![7, 8]);
    assert_eq!(host.read_bytes(0).unwrap(), Vec::<u8>::new());
    assert_eq!(host.read_bytes(5).unwrap(), vec![7, 8]);
}

#[test]
fn single_read_of_one_character() {
    assert_eq!(char_of_single_read("").unwrap(), None);
    assert_eq!(char_of_single_read("\u{e9}").unwrap(), Some('\u{e9}'));
    let e = char_of_single_read("ab").unwrap_err();
    assert_eq!(
        e.to_string(),
        "got more than 1 char from read_string(1), which should never happen..."
    );
}

#[test]
fn unbuffered_text_source_never_reads_ahead() {
    let mut source = SuitableUnbufferedTextStream::new(MemoryTextStream::new(TEXT));
    assert_eq!(source.read_char().unwrap(), Some('a'));
    assert_eq!(source.read_char().unwrap(), Some('\u{e9}'));
    assert_eq!(source.remainder(), StreamData::Text(String::new()));
    source.park_cursor().unwrap();
    assert_eq!(read_all(&mut source), "\u{4e2d}\u{1F600}z");
    assert_eq!(source.read_char().unwrap(), None);
    assert_eq!(source.into_inner().position(), 5);
}

#[test]
fn unseekable_buffered_text_source_returns_what_it_read_ahead() {
    for chunk in 1..8usize {
        for taken in 0..=5usize {
            let mut source = SuitableUnseekableBufferedTextStream::new(
                MemoryTextStream::new(TEXT),
                chunk,
            );
            let mut handed_out = String::new();
            for _ in 0..taken {
                handed_out.push(source.read_char().unwrap().unwrap());
            }
            source.park_cursor().unwrap();
            let remainder = match source.remainder() {
                StreamData::Text(s) => s,
                other => panic!("{:?}", other),
            };
            let host = source.into_inner();
            // what was pulled from the stream and not handed out, no more, no less
            let pulled: String = TEXT.chars().take(host.position()).collect();
            assert_eq!(format!("{}{}", handed_out, remainder), pulled);
            assert_eq!(format!("{}{}{}", handed_out, remainder, host.rest()), TEXT);
            let chunks_read = if taken == 0 { 0 } else { (taken + chunk - 1) / chunk };
            assert_eq!(host.position(), (chunks_read * chunk).min(5));
        }
    }
}

#[test]
fn unseekable_buffered_text_source_hands_out_everything() {
    for chunk in [1usize, 2, 3, 100] {
        for limit in [1usize, 2, 100] {
            let mut source = SuitableUnseekableBufferedTextStream::new(
                MemoryTextStream::with_read_limit(TEXT, limit),
                chunk,
            );
            assert_eq!(read_all(&mut source), TEXT);
            assert_eq!(source.read_char().unwrap(), None);
            assert_eq!(source.remainder(), StreamData::Text(String::new()));
        }
    }
}

#[test]
fn seekable_buffered_text_source_parks_behind_the_last_character() {
    for chunk in 1..8usize {
        for limit in [1usize, 2, 100] {
            for taken in 0..=5usize {
                let mut source = SuitableSeekableBufferedTextStream::new(
                    MemoryTextStream::with_read_limit(TEXT, limit),
                    chunk,
                );
                let mut handed_out = String::new();
                for _ in 0..taken {
                    handed_out.push(source.read_char().unwrap().unwrap());
                }
                source.park_cursor().unwrap();
                assert_eq!(source.remainder(), StreamData::Text(String::new()));
                // parking twice changes nothing
                source.park_cursor().unwrap();
                let mut after = source;
                let rest = read_all(&mut after);
                assert_eq!(format!("{}{}", handed_out, rest), TEXT);
            }
        }
    }
}

#[test]
fn seekable_buffered_text_source_leaves_the_stream_at_the_character() {
    for chunk in 1..8usize {
        for taken in 0..=5usize {
            let mut source =
                SuitableSeekableBufferedTextStream::new(MemoryTextStream::new(TEXT), chunk);
            for _ in 0..taken {
                source.read_char().unwrap().unwrap();
            }
            let remainder = match source.remainder() {
                StreamData::Text(s) => s,
                other => panic!("{:?}", other),
            };
            source.park_cursor().unwrap();
            let host = source.into_inner();
            assert_eq!(host.position(), taken);
            let expected: String = TEXT.chars().skip(taken).collect();
            assert_eq!(host.rest(), expected);
            assert!(expected.starts_with(&remainder));
        }
    }
}

#[test]
fn unbuffered_bytes_source_decodes_utf8() {
    for limit in [1usize, 2, 100] {
        let mut source = SuitableUnbufferedBytesStream::new(MemoryBytesStream::with_read_limit(
            TEXT.as_bytes().to_vec(),
            limit,
        ));
        assert_eq!(source.read_char().unwrap(), Some('a'));
        assert_eq!(source.read_char().unwrap(), Some('\u{e9}'));
        assert_eq!(source.remainder(), StreamData::Bytes(vec![]));
        source.park_cursor().unwrap();
        assert_eq!(source.read_char().unwrap(), Some('\u{4e2d}'));
        let host = source.into_inner();
        assert_eq!(host.position(), 6);
        assert_eq!(host.rest(), "\u{1F600}z".as_bytes().to_vec());
    }
}

#[test]
fn unbuffered_bytes_source_reads_to_the_end() {
    let mut source =
        SuitableUnbufferedBytesStream::new(MemoryBytesStream::new(TEXT.as_bytes().to_vec()));
    assert_eq!(read_all(&mut source), TEXT);
    assert_eq!(source.read_char().unwrap(), None);
}

#[test]
fn unbuffered_bytes_source_refuses_what_is_no_utf8() {
    let mut source = SuitableUnbufferedBytesStream::new(MemoryBytesStream::new(vec![0x61, 0xff]));
    assert_eq!(source.read_char().unwrap(), Some('a'));
    assert_eq!(
        source.read_char().unwrap_err().to_string(),
        "invalid UTF-8 start byte: ff"
    );
    let mut source = SuitableUnbufferedBytesStream::new(MemoryBytesStream::new(vec![0x80]));
    assert_eq!(
        source.read_char().unwrap_err().to_string(),
        "invalid UTF-8 start byte: 80"
    );
    // a continuation byte is missing
    let mut source = SuitableUnbufferedBytesStream::new(MemoryBytesStream::new(vec![0xc3, 0x28]));
    let expected = std::str::from_utf8(&[0xc3, 0x28]).unwrap_err().to_string();
    assert_eq!(source.read_char().unwrap_err().to_string(), expected);
    // the stream ends within a character
    let mut source = SuitableUnbufferedBytesStream::new(MemoryBytesStream::new(vec![0xe4, 0xb8]));
    let expected = std::str::from_utf8(&[0xe4, 0xb8]).unwrap_err().to_string();
    assert_eq!(source.read_char().unwrap_err().to_string(), expected);
    // a surrogate, encoded as if it were a character
    let mut source =
        SuitableUnbufferedBytesStream::new(MemoryBytesStream::new(vec![0xed, 0xa0, 0x80]));
    assert!(source.read_char().is_err());
}

#[test]
fn unseekable_buffered_bytes_source_returns_what_it_read_ahead() {
    let bytes = TEXT.as_bytes().to_vec();
    let widths = [1usize, 2, 3, 4, 1];
    for chunk in 1..12usize {
        for taken in 0..=5usize {
            let mut source = SuitableUnseekableBufferedBytesStream::new(
                MemoryBytesStream::new(bytes.clone()),
                chunk,
            );
            for _ in 0..taken {
                source.read_char().unwrap().unwrap();
            }
            source.park_cursor().unwrap();
            let remainder = match source.remainder() {
                StreamData::Bytes(b) => b,
                other => panic!("{:?}", other),
            };
            let consumed: usize = widths[..taken].iter().sum();
            let host = source.into_inner();
            assert_eq!(consumed + remainder.len(), host.position());
            assert_eq!(remainder, bytes[consumed..host.position()].to_vec());
            assert_eq!(host.rest(), bytes[host.position()..].to_vec());
        }
    }
}

#[test]
fn buffered_bytes_sources_hand_out_everything() {
    let bytes = TEXT.as_bytes().to_vec();
    for chunk in [1usize, 2, 3, 5, 100] {
        for limit in [1usize, 3, 100] {
            let mut source = SuitableUnseekableBufferedBytesStream::new(
                MemoryBytesStream::with_read_limit(bytes.clone(), limit),
                chunk,
            );
            assert_eq!(read_all(&mut source), TEXT);
            assert_eq!(source.read_char().unwrap(), None);
            let mut source = SuitableSeekableBufferedBytesStream::new(
                MemoryBytesStream::with_read_limit(bytes.clone(), limit),
                chunk,
            );
            assert_eq!(read_all(&mut source), TEXT);
            assert_eq!(source.read_char().unwrap(), None);
            assert_eq!(source.remainder(), StreamData::Bytes(vec![]));
        }
    }
}

#[test]
fn seekable_buffered_bytes_source_parks_behind_the_last_character() {
    let bytes = TEXT.as_bytes().to_vec();
    let widths = [1usize, 2, 3, 4, 1];
    for chunk in 1..12usize {
        for limit in [1usize, 2, 100] {
            for taken in 0..=5usize {
                let mut source = SuitableSeekableBufferedBytesStream::new(
                    MemoryBytesStream::with_read_limit(bytes.clone(), limit),
                    chunk,
                );
                for _ in 0..taken {
                    source.read_char().unwrap().unwrap();
                }
                source.park_cursor().unwrap();
                assert_eq!(source.remainder(), StreamData::Bytes(vec![]));
                source.park_cursor().unwrap();
                let consumed: usize = widths[..taken].iter().sum();
                let host = source.into_inner();
                assert_eq!(host.position(), consumed);
                assert_eq!(host.rest(), bytes[consumed..].to_vec());
            }
        }
    }
}

#[test]
fn buffered_bytes_source_refuses_what_is_no_utf8() {
    let mut source =
        SuitableUnseekableBufferedBytesStream::new(MemoryBytesStream::new(vec![0x61, 0xff]), 8);
    assert_eq!(source.read_char().unwrap(), Some('a'));
    assert_eq!(
        source.read_char().unwrap_err().to_string(),
        "invalid UTF-8 start byte: ff"
    );
    let mut source =
        SuitableSeekableBufferedBytesStream::new(MemoryBytesStream::new(vec![0xe4, 0xb8]), 8);
    let expected = std::str::from_utf8(&[0xe4, 0xb8]).unwrap_err().to_string();
    assert_eq!(source.read_char().unwrap_err().to_string(), expected);
    let mut source =
        SuitableSeekableBufferedBytesStream::new(MemoryBytesStream::new(vec![0xc3, 0x28]), 1);
    let expected = std::str::from_utf8(&[0xc3, 0x28]).unwrap_err().to_string();
    assert_eq!(source.read_char().unwrap_err().to_string(), expected);
}

#[test]
fn byte_buffer_decodes_from_its_front() {
    let mut buffer = ByteBuffer::new();
    assert!(matches!(buffer.decode_front().unwrap(), Decoded::Empty));
    buffer.extend(vec![0x61, 0xe4]);
    assert_eq!(buffer.len(), 2);
    assert!(matches!(buffer.decode_front().unwrap(), Decoded::Char('a')));
    assert_eq!(buffer.consumed(), 1);
    assert!(matches!(buffer.decode_front().unwrap(), Decoded::Incomplete(2)));
    assert_eq!(buffer.remaining(), vec![0xe4]);
    buffer.extend(vec![0xb8]);
    assert!(matches!(buffer.decode_front().unwrap(), Decoded::Incomplete(1)));
    let expected = std::str::from_utf8(&[0xe4, 0xb8]).unwrap_err().to_string();
    assert_eq!(buffer.incomplete().to_string(), expected);
    buffer.extend(vec![0xad, 0x7a]);
    assert!(matches!(buffer.decode_front().unwrap(), Decoded::Char('\u{4e2d}')));
    assert_eq!(buffer.consumed(), 4);
    assert_eq!(buffer.remaining(), vec![0x7a]);
    buffer.clear();
    assert_eq!(buffer.len(), 0);
    assert_eq!(buffer.consumed(), 0);
    assert!(matches!(buffer.decode_front().unwrap(), Decoded::Empty));
}

#[test]
fn rewind_reader_takes_back_the_last_read() {
    let mut reader = RewindReader::new(MemoryBytesStream::new(vec![1, 2, 3, 4, 5]));
    // nothing to take back yet
    reader.rewind_read().unwrap();
    assert_eq!(reader.read_bytes(2).unwrap(), vec![1, 2]);
    assert_eq!(reader.read_bytes(2).unwrap(), vec![3, 4]);
    reader.rewind_read().unwrap();
    assert_eq!(reader.read_bytes(3).unwrap(), vec![3, 4, 5]);
    reader.rewind_read().unwrap();
    // a second time there is nothing left to take back
    reader.rewind_read().unwrap();
    let host = reader.into_inner();
    assert_eq!(host.position(), 2);
    assert_eq!(host.rest(), vec![3, 4, 5]);
}

#[test]
fn tokens_over_every_kind_of_source() {
    let text = "{\"k\": [1.5, \"\u{e9}\u{1F600}\", -2]}";
    let expected = vec![
        Token::Operator('{'),
        Token::String_(Some("k".to_owned())),
        Token::Operator(':'),
        Token::Operator('['),
        Token::Float("1.5".to_owned()),
        Token::Operator(','),
        Token::String_(Some("\u{e9}\u{1F600}".to_owned())),
        Token::Operator(','),
        Token::Integer(json_stream_rs_tokenizer::integer::AppropriateInt::Normal(-2)),
        Token::Operator(']'),
        Token::Operator('}'),
    ];
    fn tokens<S: json_stream_rs_tokenizer::suitable_stream::SuitableStream>(source: S) -> Vec<Token> {
        let mut t = RustTokenizer::new(source, false);
        let mut tokens = Vec::new();
        while let Some(token) = t.next_token().unwrap() {
            tokens.push(token);
        }
        assert_eq!(t.next_token().unwrap(), None);
        tokens
    }
    let bytes = text.as_bytes().to_vec();
    assert_eq!(tokens(SuitableUnbufferedTextStream::new(MemoryTextStream::new(text))), expected);
    assert_eq!(tokens(SuitableUnbufferedBytesStream::new(MemoryBytesStream::new(bytes.clone()))), expected);
    for chunk in [1usize, 2, 3, 7, 8000] {
        assert_eq!(
            tokens(SuitableUnseekableBufferedTextStream::new(MemoryTextStream::new(text), chunk)),
            expected
        );
        assert_eq!(
            tokens(SuitableSeekableBufferedTextStream::new(MemoryTextStream::new(text), chunk)),
            expected
        );
        assert_eq!(
            tokens(SuitableUnseekableBufferedBytesStream::new(MemoryBytesStream::new(bytes.clone()), chunk)),
            expected
        );
        assert_eq!(
            tokens(SuitableSeekableBufferedBytesStream::new(MemoryBytesStream::new(bytes.clone()), chunk)),
            expected
        );
    }
}

#[test]
fn tokenizer_returns_the_remainder_of_its_source() {
    let text = "[1, 2] and what follows";
    let source = SuitableUnseekableBufferedTextStream::new(MemoryTextStream::new(text), 10);
    let mut t = RustTokenizer::new(source, false);
    loop {
        if let Some(Token::Operator(']')) = t.next_token().unwrap() {
            break;
        }
    }
    // parking is of no use here
    t.park_cursor().unwrap();
    assert_eq!(t.remainder(), StreamData::Text(" and".to_owned()));
    let host = t.into_stream().into_inner();
    assert_eq!(host.rest(), " what follows");
}

#[test]
fn tokenizer_parks_a_bytes_stream_behind_the_document() {
    let text = "{\"a\": \"\u{e9}\"}\u{4e2d} and what follows";
    for chunk in [1usize, 2, 3, 4, 5, 64] {
        let source = SuitableSeekableBufferedBytesStream::new(
            MemoryBytesStream::new(text.as_bytes().to_vec()),
            chunk,
        );
        let mut t = RustTokenizer::new(source, false);
        loop {
            if let Some(Token::Operator('}')) = t.next_token().unwrap() {
                break;
            }
        }
        t.park_cursor().unwrap();
        assert_eq!(t.remainder(), StreamData::Bytes(vec![]));
        let host = t.into_stream().into_inner();
        assert_eq!(host.rest(), "\u{4e2d} and what follows".as_bytes().to_vec());
    }
}

#[test]
fn host_streams_outside_the_library_fit_in() {
    struct Upper(Vec<char>);
    impl HostStream for Upper {
        type Unit = char;
    }
    impl ReadString for Upper {
        fn read_string(&mut self, size: usize) -> Result<String, std::io::Error> {
            let n = size.min(self.0.len());
            Ok(self.0.drain(..n).collect::<String>().to_uppercase())
        }
    }
    let mut source = SuitableUnseekableBufferedTextStream::new(Upper("abc".chars().collect()), 2);
    assert_eq!(read_all(&mut source), "ABC");
}

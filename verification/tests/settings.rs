use json_stream_rs_tokenizer::memory_stream::{MemoryBytesStream, MemoryTextStream};
use json_stream_rs_tokenizer::park_cursor::ParkCursorChars;
use json_stream_rs_tokenizer::remainder::{Remainder, StreamData};
use json_stream_rs_tokenizer::suitable_bytes_stream::{
    make_suitable_bytes_stream, SuitableBytesStream,
};
use json_stream_rs_tokenizer::suitable_stream::{
    decide_stream_settings, BufferingMode, IncompatibleRequirements, StreamSettings,
    DEFAULT_BUFSIZE,
};
use json_stream_rs_tokenizer::suitable_text_stream::{
    make_suitable_text_stream, SuitableTextStream,
};
use json_stream_rs_tokenizer::utf8_char_source::Utf8CharSource;

#[test]
fn test_decide_stream_settings() {
    let cases = [
        (true, BufferingMode::BufferedWithSize(5), true, Ok(StreamSettings::SeekableBuffered(5))),
        (false, BufferingMode::BufferedWithSize(5), true, Ok(StreamSettings::UnseekableBuffered(5))),
        (true, BufferingMode::Unbuffered, true, Ok(StreamSettings::Unbuffered)),
        (false, BufferingMode::Unbuffered, true, Ok(StreamSettings::Unbuffered)),
        (true, BufferingMode::BufferedWithSize(5), false, Err(IncompatibleRequirements)),
        (false, BufferingMode::BufferedWithSize(5), false, Ok(StreamSettings::UnseekableBuffered(5))),
        (true, BufferingMode::Unbuffered, false, Ok(StreamSettings::Unbuffered)),
        (false, BufferingMode::Unbuffered, false, Ok(StreamSettings::Unbuffered)),
        (true, BufferingMode::DontCare, true, Ok(StreamSettings::SeekableBuffered(DEFAULT_BUFSIZE))),
        (false, BufferingMode::DontCare, true, Ok(StreamSettings::UnseekableBuffered(DEFAULT_BUFSIZE))),
        (true, BufferingMode::DontCare, false, Ok(StreamSettings::Unbuffered)),
        (false, BufferingMode::DontCare, false, Ok(StreamSettings::UnseekableBuffered(DEFAULT_BUFSIZE))),
    ];
    for (correct_cursor, buffering, seekable, expected_result) in cases {
        let result = decide_stream_settings(correct_cursor, buffering, seekable);
        assert_eq!(result, expected_result);
    }
}

#[test]
fn default_chunk_size() {
    assert_eq!(DEFAULT_BUFSIZE, 8000);
}

#[test]
fn incompatible_requirements_in_words() {
    assert_eq!(
        IncompatibleRequirements.message(),
        "Incompatible stream requirements: correct_cursor and a buffer size > 1 are only \
         possible if the given stream is seekable, which this one is not"
    );
}

#[test]
fn buffering_number_is_read_as_a_mode() {
    assert_eq!(BufferingMode::from_buffering(-1), BufferingMode::DontCare);
    assert_eq!(BufferingMode::from_buffering(i64::MIN), BufferingMode::DontCare);
    assert_eq!(BufferingMode::from_buffering(0), BufferingMode::Unbuffered);
    assert_eq!(BufferingMode::from_buffering(1), BufferingMode::Unbuffered);
    assert_eq!(BufferingMode::from_buffering(2), BufferingMode::BufferedWithSize(2));
    assert_eq!(
        BufferingMode::from_buffering(8192),
        BufferingMode::BufferedWithSize(8192)
    );
}

#[test]
fn text_stream_is_wrapped_as_the_settings_say() {
    let made = make_suitable_text_stream(
        MemoryTextStream::new("abc"),
        BufferingMode::BufferedWithSize(2),
        true,
        true,
    );
    let mut stream = match made {
        Ok(stream) => stream,
        Err(_) => panic!("refused"),
    };
    assert!(matches!(stream, SuitableTextStream::SeekableBuffered(_)));
    assert_eq!(stream.read_char().unwrap(), Some('a'));
    assert_eq!(stream.remainder(), StreamData::Text("b".to_owned()));
    stream.park_cursor().unwrap();
    assert_eq!(stream.remainder(), StreamData::Text("".to_owned()));
    assert_eq!(stream.read_char().unwrap(), Some('b'));
    assert_eq!(stream.read_char().unwrap(), Some('c'));
    assert_eq!(stream.read_char().unwrap(), None);
    assert_eq!(stream.into_inner().position(), 3);

    let made = make_suitable_text_stream(
        MemoryTextStream::new("abc"),
        BufferingMode::BufferedWithSize(2),
        false,
        false,
    );
    let mut stream = match made {
        Ok(stream) => stream,
        Err(_) => panic!("refused"),
    };
    assert!(matches!(stream, SuitableTextStream::UnseekableBuffered(_)));
    assert_eq!(stream.read_char().unwrap(), Some('a'));
    stream.park_cursor().unwrap();
    assert_eq!(stream.remainder(), StreamData::Text("b".to_owned()));
    assert_eq!(stream.into_inner().rest(), "c");

    let made = make_suitable_text_stream(
        MemoryTextStream::new("abc"),
        BufferingMode::DontCare,
        true,
        false,
    );
    let mut stream = match made {
        Ok(stream) => stream,
        Err(_) => panic!("refused"),
    };
    assert!(matches!(stream, SuitableTextStream::Unbuffered(_)));
    assert_eq!(stream.read_char().unwrap(), Some('a'));
    assert_eq!(stream.remainder(), StreamData::Text("".to_owned()));
    assert_eq!(stream.into_inner().rest(), "bc");
}

#[test]
fn text_stream_is_given_back_where_the_requirements_clash() {
    let made = make_suitable_text_stream(
        MemoryTextStream::new("abc"),
        BufferingMode::BufferedWithSize(2),
        true,
        false,
    );
    match made {
        Err((IncompatibleRequirements, stream)) => assert_eq!(stream.rest(), "abc"),
        Ok(_) => panic!("accepted"),
    }
}

#[test]
fn bytes_stream_is_wrapped_as_the_settings_say() {
    let made = make_suitable_bytes_stream(
        MemoryBytesStream::new(b"a\xc3\xa9c".to_vec()),
        BufferingMode::BufferedWithSize(2),
        true,
        true,
    );
    let mut stream = match made {
        Ok(stream) => stream,
        Err(_) => panic!("refused"),
    };
    assert!(matches!(stream, SuitableBytesStream::SeekableBuffered(_)));
    assert_eq!(stream.read_char().unwrap(), Some('a'));
    assert_eq!(stream.remainder(), StreamData::Bytes(vec![0xc3]));
    assert_eq!(stream.read_char().unwrap(), Some('\u{e9}'));
    stream.park_cursor().unwrap();
    assert_eq!(stream.remainder(), StreamData::Bytes(vec![]));
    assert_eq!(stream.into_inner().rest(), b"c".to_vec());

    let made = make_suitable_bytes_stream(
        MemoryBytesStream::new(b"abc".to_vec()),
        BufferingMode::Unbuffered,
        true,
        false,
    );
    let mut stream = match made {
        Ok(stream) => stream,
        Err(_) => panic!("refused"),
    };
    assert!(matches!(stream, SuitableBytesStream::Unbuffered(_)));
    assert_eq!(stream.read_char().unwrap(), Some('a'));
    assert_eq!(stream.into_inner().rest(), b"bc".to_vec());

    let made = make_suitable_bytes_stream(
        MemoryBytesStream::new(b"abc".to_vec()),
        BufferingMode::DontCare,
        false,
        true,
    );
    let stream = match made {
        Ok(stream) => stream,
        Err(_) => panic!("refused"),
    };
    assert!(matches!(stream, SuitableBytesStream::UnseekableBuffered(_)));

    let made = make_suitable_bytes_stream(
        MemoryBytesStream::new(b"abc".to_vec()),
        BufferingMode::BufferedWithSize(4),
        true,
        false,
    );
    match made {
        Err((IncompatibleRequirements, stream)) => assert_eq!(stream.rest(), b"abc".to_vec()),
        Ok(_) => panic!("accepted"),
    }
}

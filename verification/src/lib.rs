//! A streaming tokenizer for JSON text, and the character sources that feed
//! it from a host stream which may be slow, chunked, or unable to seek.
//!
//! The crate has three layers.
//!
//! - A host stream delivers text or bytes and may be able to seek. What is
//!   asked of it is in `read_string`, `read_bytes` and `opaque_seek`; what is
//!   known of it, a run of units with a cursor in it, is in `host_stream`.
//!   `memory_stream` holds streams over data in memory.
//! - A character source turns a host stream into single characters. There is
//!   one for each way of reading: without read-ahead, in chunks on a stream
//!   that cannot seek, and in chunks on one that can; each for text and for
//!   bytes. All of them can park the cursor of the stream behind the last
//!   character handed out, as far as the stream allows, and return what they
//!   read ahead. `suitable_stream` settles which one to use.
//! - The tokenizer in `tokenizer` pulls characters from a source and reports
//!   tokens; `json_string_reader` reads the contents of strings, `integer`
//!   tells machine integers from big ones. `grammar` says how tokens are
//!   written and proves that the tokenizer reads what is written.

pub mod char_buffer;
pub mod char_or_eof;
pub mod error;
pub mod grammar;
pub mod host_stream;
pub mod integer;
pub mod json_string_reader;
pub mod memory_stream;
pub mod opaque_seek;
pub mod park_cursor;
pub mod read_bytes;
pub mod read_rewind;
pub mod read_string;
pub mod remainder;
pub mod suitable_bytes_stream;
pub mod suitable_seekable_buffered_bytes_stream;
pub mod suitable_seekable_buffered_text_stream;
pub mod suitable_stream;
pub mod suitable_text_stream;
pub mod suitable_unbuffered_bytes_stream;
pub mod suitable_unbuffered_text_stream;
pub mod suitable_unseekable_buffered_bytes_stream;
pub mod suitable_unseekable_buffered_text_stream;
pub mod text;
pub mod tokenizer;
pub mod unicode_utils;
pub mod utf8_char_source;
pub mod utf8_decode;

pub use crate::char_or_eof::CharOrEof;
pub use crate::error::{JsonStreamingError, ParsingError};
pub use crate::suitable_stream::BufferingMode;
pub use crate::tokenizer::{RustTokenizer, Token, TokenType};
pub use crate::unicode_utils::UnicodeError;

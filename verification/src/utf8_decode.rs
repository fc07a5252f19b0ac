//! Decoding UTF-8 a character at a time: the width that a first byte
//! announces, and the bytes read ahead of the decoder.

use crate::error::io_error_other;
use crate::text::push_lower_hex;
use utf8_width::get_width;
use vstd::prelude::*;
use vstd::slice::slice_subrange;
use vstd::utf8::{
    decode_first_scalar, decode_utf8, encode_utf8, length_of_first_scalar, valid_first_scalar,
    valid_utf8,
};

verus! {

/// How many bytes the UTF-8 encoding of a character takes that begins with
/// `byte`, and 0 where no encoding begins with it.
pub open spec fn first_byte_width(byte: u8) -> usize {
    if byte <= 0x7F {
        1
    } else if 0xC2 <= byte <= 0xDF {
        2
    } else if 0xE0 <= byte <= 0xEF {
        3
    } else if 0xF0 <= byte <= 0xF4 {
        4
    } else {
        0
    }
}

/// `utf8_width::get_width` tells the width of a character from its first
/// byte, and gives 0 for a byte that begins none.
pub assume_specification[ get_width ](byte: u8) -> (r: usize)
    ensures
        r == first_byte_width(byte),
;

/// `core::str::Utf8Error`, the reason why bytes are not UTF-8.
#[verifier::external_type_specification]
#[verifier::external_body]
pub struct ExUtf8Error(core::str::Utf8Error);

/// `core::str::from_utf8` succeeds on valid UTF-8 and on nothing else, and
/// the string that it gives is made of the bytes that it was given.
pub assume_specification<'a>[ core::str::from_utf8 ](v: &'a [u8]) -> (r: Result<
    &'a str,
    core::str::Utf8Error,
>)
    ensures
        r is Ok <==> valid_utf8(v@),
        r matches Ok(s) ==> encode_utf8(s@) == v@,
;

/// Renders a `Utf8Error` with its `Display`.
#[verifier::external_body]
pub(crate) fn utf8_error_text(e: &core::str::Utf8Error) -> String {
    format!("{}", e)
}

/// The characters that stand at the front of the bytes in valid UTF-8, up to
/// the first byte that is not part of one.
pub open spec fn leading_chars(bytes: Seq<u8>) -> Seq<char>
    decreases bytes.len(),
{
    if bytes.len() > 0 && valid_first_scalar(bytes) && 0 < length_of_first_scalar(bytes)
        <= bytes.len() {
        seq![decode_first_scalar(bytes) as char] + leading_chars(
            bytes.skip(length_of_first_scalar(bytes)),
        )
    } else {
        Seq::empty()
    }
}

/// Where the first `width` bytes are valid UTF-8 and `width` is the width
/// that the first byte announces, they are one character, and that character
/// leads the bytes.
pub proof fn lemma_first_char(bytes: Seq<u8>, width: nat)
    requires
        0 < width <= bytes.len(),
        width == first_byte_width(bytes[0]),
        valid_utf8(bytes.take(width as int)),
    ensures
        decode_utf8(bytes.take(width as int)) == seq![decode_first_scalar(bytes) as char],
        leading_chars(bytes) == seq![decode_first_scalar(bytes) as char] + leading_chars(
            bytes.skip(width as int),
        ),
{
    let front = bytes.take(width as int);
    assert(front[0] == bytes[0]);
    assert(valid_first_scalar(front));
    assert(length_of_first_scalar(front) == width);
    assert(vstd::utf8::pop_first_scalar(front) == Seq::<u8>::empty());
    assert(valid_first_scalar(bytes));
    assert(length_of_first_scalar(bytes) == width);
    assert(decode_first_scalar(front) == decode_first_scalar(bytes));
    assert(decode_utf8(Seq::<u8>::empty()) == Seq::<char>::empty());
}

/// Valid UTF-8 holds at least as many bytes as its first byte announces.
pub proof fn lemma_valid_is_whole(front: Seq<u8>)
    requires
        front.len() > 0,
        valid_utf8(front),
    ensures
        first_byte_width(front[0]) > 0 ==> first_byte_width(front[0]) <= front.len(),
{
    assert(valid_first_scalar(front));
}

proof fn lemma_two_bytes_short(b1: u8, b2: u8)
    by (bit_vector)
    requires
        b1 == 0xC0 || b1 == 0xC1,
    ensures
        ((((b1 & 0x1F) as u32) << 6) | ((b2 & 0x3f) as u32)) < 0x80,
{
}

proof fn lemma_four_bytes_beyond(b1: u8, b2: u8, b3: u8, b4: u8)
    by (bit_vector)
    requires
        0xF5 <= b1 <= 0xF7,
    ensures
        ((((b1 & 0x07) as u32) << 18) | (((b2 & 0x3f) as u32) << 12) | (((b3 & 0x3f) as u32)
            << 6) | ((b4 & 0x3f) as u32)) > 0x10ffff,
{
}

/// Valid UTF-8 begins with a byte that announces a width, holds as many
/// bytes as that, and is valid UTF-8 both up to there and from there on.
pub proof fn lemma_valid_front(bytes: Seq<u8>)
    requires
        bytes.len() > 0,
        valid_utf8(bytes),
    ensures
        0 < first_byte_width(bytes[0]) <= bytes.len(),
        valid_utf8(bytes.take(first_byte_width(bytes[0]) as int)),
        valid_utf8(bytes.skip(first_byte_width(bytes[0]) as int)),
{
    assert(valid_first_scalar(bytes));
    let b0 = bytes[0];
    if vstd::utf8::is_leading_byte_width_2(b0) {
        if b0 == 0xC0 || b0 == 0xC1 {
            lemma_two_bytes_short(b0, bytes[1]);
        }
    }
    if vstd::utf8::is_leading_byte_width_4(b0) {
        if 0xF5 <= b0 {
            lemma_four_bytes_beyond(b0, bytes[1], bytes[2], bytes[3]);
        }
    }
    let width = first_byte_width(b0);
    assert(width == length_of_first_scalar(bytes));
    let front = bytes.take(width as int);
    assert(front[0] == b0);
    assert(valid_first_scalar(front));
    assert(vstd::utf8::pop_first_scalar(front) == Seq::<u8>::empty());
    assert(valid_utf8(Seq::<u8>::empty()));
    assert(valid_utf8(front));
    assert(vstd::utf8::pop_first_scalar(bytes) == bytes.skip(width as int));
}

/// Where the bytes begin with a whole character in valid UTF-8, that
/// character leads them whatever follows.
pub proof fn lemma_first_char_of_joined(front: Seq<u8>, back: Seq<u8>, width: nat)
    requires
        0 < width <= front.len(),
        width == first_byte_width(front[0]),
        valid_utf8(front.take(width as int)),
    ensures
        leading_chars(front + back) == seq![decode_first_scalar(front) as char] + leading_chars(
            front.skip(width as int) + back,
        ),
{
    let all = front + back;
    assert(all.take(width as int) == front.take(width as int));
    assert(all.skip(width as int) == front.skip(width as int) + back);
    lemma_first_char(all, width);
    lemma_first_char(front, width);
}

/// What stands at the front of the bytes read ahead.
pub enum Decoded {
    /// A character.
    Char(char),
    /// Nothing: all bytes read are used up.
    Empty,
    /// The first bytes of a character, which needs this many more.
    Incomplete(usize),
}

/// Bytes that were read from a stream, with a mark behind those that are
/// decoded already.
pub struct ByteBuffer {
    bytes: Vec<u8>,
    start: usize,
}

impl ByteBuffer {
    /// All the bytes held, decoded or not.
    pub closed spec fn held(&self) -> Seq<u8> {
        self.bytes@
    }

    /// How many of the bytes held are decoded.
    pub closed spec fn used(&self) -> nat {
        self.start as nat
    }

    /// The mark stands within the bytes.
    pub open spec fn wf(&self) -> bool {
        self.used() <= self.held().len()
    }

    /// The bytes that are not decoded yet.
    pub open spec fn rest(&self) -> Seq<u8> {
        if self.used() <= self.held().len() {
            self.held().skip(self.used() as int)
        } else {
            Seq::empty()
        }
    }

    pub fn new() -> (r: Self)
        ensures
            r.wf(),
            r.held() == Seq::<u8>::empty(),
            r.used() == 0,
    {
        ByteBuffer { bytes: Vec::new(), start: 0 }
    }

    /// Forgets all bytes.
    pub fn clear(&mut self)
        ensures
            final(self).wf(),
            final(self).held() == Seq::<u8>::empty(),
            final(self).used() == 0,
    {
        self.bytes = Vec::new();
        self.start = 0;
    }

    /// Adds bytes behind those held.
    pub fn extend(&mut self, more: Vec<u8>)
        requires
            old(self).wf(),
        ensures
            final(self).wf(),
            final(self).held() == old(self).held() + more@,
            final(self).used() == old(self).used(),
            final(self).rest() == old(self).rest() + more@,
    {
        let mut more = more;
        self.bytes.append(&mut more);
    }

    /// How many of the bytes held are decoded.
    pub fn consumed(&self) -> (r: usize)
        ensures
            r == self.used(),
    {
        self.start
    }

    /// How many bytes are held, decoded or not.
    pub fn len(&self) -> (r: usize)
        ensures
            r == self.held().len(),
    {
        self.bytes.len()
    }

    /// A copy of the bytes that are not decoded yet.
    pub fn remaining(&self) -> (r: Vec<u8>)
        ensures
            r@ == self.rest(),
    {
        let mut v: Vec<u8> = Vec::new();
        if self.start >= self.bytes.len() {
            return v;
        }
        let mut i = self.start;
        while i < self.bytes.len()
            invariant
                self.start <= i <= self.bytes.len(),
                v@ == self.bytes@.subrange(self.start as int, i as int),
            decreases self.bytes.len() - i,
        {
            v.push(self.bytes[i]);
            i += 1;
        }
        proof {
            assert(self.bytes@.subrange(self.start as int, self.bytes.len() as int)
                == self.bytes@.skip(self.start as int));
        }
        v
    }

    /// Decodes the character at the front of the bytes that are not decoded
    /// yet, and moves the mark behind it.
    ///
    /// Where those bytes are only the start of a character, nothing moves and
    /// the result tells how many bytes are missing. Bytes that begin no
    /// character in UTF-8 are an error.
    pub fn decode_front(&mut self) -> (r: Result<Decoded, std::io::Error>)
        requires
            old(self).wf(),
        ensures
            final(self).wf(),
            final(self).held() == old(self).held(),
            match r {
                Ok(Decoded::Char(c)) => {
                    let rest = old(self).rest();
                    let width = first_byte_width(rest[0]);
                    &&& 0 < width <= rest.len()
                    &&& valid_utf8(rest.take(width as int))
                    &&& c == decode_first_scalar(rest) as char
                    &&& final(self).used() == old(self).used() + width
                    &&& final(self).rest() == rest.skip(width as int)
                },
                Ok(Decoded::Empty) => {
                    &&& old(self).rest().len() == 0
                    &&& final(self).used() == old(self).used()
                },
                Ok(Decoded::Incomplete(missing)) => {
                    let rest = old(self).rest();
                    &&& 0 < rest.len() < first_byte_width(rest[0])
                    &&& missing == first_byte_width(rest[0]) - rest.len()
                    &&& final(self).used() == old(self).used()
                },
                Err(_) => {
                    let rest = old(self).rest();
                    let width = first_byte_width(rest[0]);
                    &&& final(self).used() == old(self).used()
                    &&& rest.len() > 0
                    &&& width == 0 || (width <= rest.len() && !valid_utf8(rest.take(width as int)))
                },
            },
    {
        let available = self.bytes.len() - self.start;
        if available == 0 {
            return Ok(Decoded::Empty);
        }
        let first = self.bytes[self.start];
        let n_bytes_in_char = get_width(first);
        if n_bytes_in_char == 0 {
            let mut message = String::from_str("invalid UTF-8 start byte: ");
            push_lower_hex(&mut message, first as u16);
            return Err(io_error_other(message.as_str()));
        }
        if available < n_bytes_in_char {
            return Ok(Decoded::Incomplete(n_bytes_in_char - available));
        }
        let front = slice_subrange(
            self.bytes.as_slice(),
            self.start,
            self.start + n_bytes_in_char,
        );
        proof {
            assert(front@ == self.rest().take(n_bytes_in_char as int));
        }
        match core::str::from_utf8(front) {
            Err(e) => Err(io_error_other(utf8_error_text(&e).as_str())),
            Ok(s) => {
                proof {
                    lemma_first_char(self.rest(), n_bytes_in_char as nat);
                    vstd::utf8::encode_utf8_decode_utf8(s@);
                    assert(self.bytes@.skip(self.start + n_bytes_in_char) == self.rest().skip(
                        n_bytes_in_char as int,
                    ));
                }
                let c = s.get_char(0);
                self.start = self.start + n_bytes_in_char;
                Ok(Decoded::Char(c))
            },
        }
    }

    /// Words the error for bytes that end within a character.
    pub fn incomplete(&self) -> (e: std::io::Error)
        requires
            self.wf(),
    {
        match core::str::from_utf8(slice_subrange(self.bytes.as_slice(), self.start, self.bytes.len())) {
            Err(e) => io_error_other(utf8_error_text(&e).as_str()),
            Ok(_) => io_error_other("stream ends within a character"),
        }
    }
}

} // verus!

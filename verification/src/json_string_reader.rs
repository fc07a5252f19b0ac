//! The contents of a JSON string: plain characters, escapes, and `\u`
//! escapes with their surrogate pairs, read one character at a time.

use crate::char_or_eof::CharOrEof;
use crate::error::{JsonStreamingError, ParsingError, ParsingErrorView};
use crate::text::{
    advance, advanced, hex_digit_value, hex_value, lemma_advanced_twice, lower_hex,
    push_lower_hex, utf8_len,
};
use crate::unicode_utils::{
    decode_surrogate_pair, is_surrogate, pair_char, pair_decodes, surrogate,
};
use crate::utf8_char_source::Utf8CharSource;
use compact_str::CompactString;
use vstd::prelude::*;

verus! {

/// `compact_str::CompactString`, a string that keeps short texts inline.
#[verifier::external_type_specification]
#[verifier::external_body]
pub struct ExCompactString(CompactString);

/// The characters that a `CompactString` holds, in order.
pub uninterp spec fn compact_text(s: CompactString) -> Seq<char>;

/// `CompactString::with_capacity` gives an empty string. A capacity this
/// small is kept inline on every platform, so nothing is allocated.
pub assume_specification[ CompactString::with_capacity ](capacity: usize) -> (s: CompactString)
    requires
        capacity <= 12,
    ensures
        compact_text(s) == Seq::<char>::empty(),
;

/// `CompactString::push` appends one character.
pub assume_specification[ CompactString::push ](s: &mut CompactString, ch: char)
    ensures
        compact_text(*final(s)) == compact_text(*old(s)).push(ch),
;

/// `CompactString::as_str` lends the whole text.
pub assume_specification<'a>[ CompactString::as_str ](s: &'a CompactString) -> (r: &'a str)
    ensures
        r@ == compact_text(*s),
;

/// Where the reader stands within a string.
#[derive(Clone, Copy, Debug, PartialEq, Eq, Structural)]
pub enum StringState {
    /// Among plain characters.
    String_,
    /// After a backslash.
    StringEscape,
    /// Within the four digits of a `\u` escape.
    Unicode,
    /// After a `\u` escape that gave a surrogate: its partner must follow.
    UnicodeSurrogateStart,
    /// After the backslash of the partner.
    UnicodeSurrogateStringEscape,
    /// Within the four digits of the partner.
    UnicodeSurrogate,
}

/// What one character does to the reader.
pub enum StringStep {
    /// The character is consumed and nothing comes out yet. The reader goes
    /// to the state given, with these digits collected and this surrogate
    /// waiting for its partner.
    Goto(StringState, Seq<char>, Option<u16>),
    /// A character of the string comes out, or its end; the reader is among
    /// plain characters again.
    Yield(CharOrEof),
    /// The input is not a string; the text says why.
    Fail(Seq<char>),
}

/// The number that four hexadecimal digits denote, if that is what `digits`
/// holds.
pub open spec fn hex4(digits: Seq<char>) -> Option<u16> {
    if digits.len() == 4 && hex_value(digits[0]) is Some && hex_value(digits[1]) is Some
        && hex_value(digits[2]) is Some && hex_value(digits[3]) is Some {
        Some(
            (hex_value(digits[0])->0 * 4096 + hex_value(digits[1])->0 * 256 + hex_value(
                digits[2],
            )->0 * 16 + hex_value(digits[3])->0) as u16,
        )
    } else {
        None
    }
}

/// The character that a one-letter escape stands for.
pub open spec fn short_escape(c: char) -> Option<char> {
    if c == '\\' || c == '"' || c == '/' {
        Some(c)
    } else if c == 'b' {
        Some('\u{8}')
    } else if c == 'f' {
        Some('\u{c}')
    } else if c == 'n' {
        Some('\n')
    } else if c == 't' {
        Some('\t')
    } else if c == 'r' {
        Some('\r')
    } else {
        None
    }
}

pub open spec fn unpaired_surrogate(c: CharOrEof) -> Seq<char> {
    match c {
        CharOrEof::Char(_) => "Unpaired UTF-16 surrogate"@,
        CharOrEof::Eof => "Unpaired UTF-16 surrogate at end of file"@,
    }
}

/// What four collected digits amount to in a first `\u` escape.
pub open spec fn first_escape(digits: Seq<char>) -> StringStep {
    match hex4(digits) {
        None => StringStep::Fail("Invalid unicode literal: \\u"@ + digits),
        Some(code) => if surrogate(code) {
            StringStep::Goto(StringState::UnicodeSurrogateStart, Seq::empty(), Some(code))
        } else {
            StringStep::Yield(CharOrEof::Char(code as char))
        },
    }
}

/// What four collected digits amount to in the escape that follows a
/// surrogate.
pub open spec fn second_escape(digits: Seq<char>, first: u16) -> StringStep {
    match hex4(digits) {
        None => StringStep::Fail("Invalid unicode literal: \\u"@ + digits),
        Some(code) => if !surrogate(code) {
            StringStep::Fail("Second half of UTF-16 surrogate pair is not a surrogate!"@)
        } else if pair_decodes(first, code) {
            StringStep::Yield(CharOrEof::Char(pair_char(first, code)))
        } else {
            StringStep::Fail(
                "Error decoding UTF-16 surrogate pair \\u"@ + lower_hex(first as nat) + "\\u"@
                    + lower_hex(code as nat),
            )
        },
    }
}

/// The transition table of the string reader.
pub open spec fn string_step(
    state: StringState,
    digits: Seq<char>,
    first: Option<u16>,
    c: CharOrEof,
) -> StringStep {
    match state {
        StringState::String_ => match c {
            CharOrEof::Eof => StringStep::Fail("Unterminated string at end of file"@),
            CharOrEof::Char(ch) => if ch == '"' {
                StringStep::Yield(CharOrEof::Eof)
            } else if ch == '\\' {
                StringStep::Goto(StringState::StringEscape, digits, first)
            } else {
                StringStep::Yield(c)
            },
        },
        StringState::StringEscape => match c {
            CharOrEof::Eof => StringStep::Fail("Unterminated string at end of file"@),
            CharOrEof::Char(ch) => if ch == 'u' {
                StringStep::Goto(StringState::Unicode, Seq::empty(), first)
            } else {
                match short_escape(ch) {
                    Some(out) => StringStep::Yield(CharOrEof::Char(out)),
                    None => StringStep::Fail("Invalid string escape: "@ + seq![ch]),
                }
            },
        },
        StringState::Unicode => match c {
            CharOrEof::Eof => StringStep::Fail("Unterminated unicode literal at end of file"@),
            CharOrEof::Char(ch) => if digits.len() + 1 < 4 {
                StringStep::Goto(StringState::Unicode, digits.push(ch), first)
            } else {
                first_escape(digits.push(ch))
            },
        },
        StringState::UnicodeSurrogateStart => if c == CharOrEof::Char('\\') {
            StringStep::Goto(StringState::UnicodeSurrogateStringEscape, digits, first)
        } else {
            StringStep::Fail(unpaired_surrogate(c))
        },
        StringState::UnicodeSurrogateStringEscape => if c == CharOrEof::Char('u') {
            StringStep::Goto(StringState::UnicodeSurrogate, Seq::empty(), first)
        } else {
            StringStep::Fail(unpaired_surrogate(c))
        },
        StringState::UnicodeSurrogate => match c {
            CharOrEof::Eof => StringStep::Fail("Unterminated unicode literal at end of file"@),
            CharOrEof::Char(ch) => if digits.len() + 1 < 4 {
                StringStep::Goto(StringState::UnicodeSurrogate, digits.push(ch), first)
            } else if first is Some {
                second_escape(digits.push(ch), first->0)
            } else {
                StringStep::Fail("This should never happen, please report it as a bug..."@)
            },
        },
    }
}

/// What the parts of a reader look like in each state.
pub open spec fn string_shape(state: StringState, digits: Seq<char>, first: Option<u16>) -> bool {
    match state {
        StringState::String_ | StringState::StringEscape => digits.len() == 0 && first is None,
        StringState::Unicode => digits.len() < 4 && first is None,
        StringState::UnicodeSurrogateStart | StringState::UnicodeSurrogateStringEscape => {
            digits.len() == 0 && first is Some
        },
        StringState::UnicodeSurrogate => digits.len() < 4 && first is Some,
    }
}

/// What stands at the front of the input within a string.
pub enum StringItem {
    /// A character of the string, and how many characters of input made it.
    Char(char, nat),
    /// The closing quote, and how many characters of input led to it.
    End(nat),
    /// An error, and how many times the input was asked for a character
    /// until it showed, the end of input counted as one.
    Fail(Seq<char>, nat),
}

/// The machine run from a given state over `input` from its `n`th character
/// on, until something comes out.
pub open spec fn scan_item(
    state: StringState,
    digits: Seq<char>,
    first: Option<u16>,
    input: Seq<char>,
    n: nat,
) -> StringItem
    decreases input.len() - n,
{
    let c = if n < input.len() {
        CharOrEof::Char(input[n as int])
    } else {
        CharOrEof::Eof
    };
    match string_step(state, digits, first, c) {
        StringStep::Goto(s, d, f) => if n < input.len() {
            scan_item(s, d, f, input, n + 1)
        } else {
            StringItem::Fail(Seq::empty(), n + 1)
        },
        StringStep::Yield(CharOrEof::Char(ch)) => StringItem::Char(ch, n + 1),
        StringStep::Yield(CharOrEof::Eof) => StringItem::End(n + 1),
        StringStep::Fail(text) => StringItem::Fail(text, n + 1),
    }
}

/// What stands at the front of `input`, read from among plain characters.
pub open spec fn next_item(input: Seq<char>) -> StringItem {
    scan_item(StringState::String_, Seq::empty(), None, input, 0)
}

/// The outcome of reading from a string.
pub enum StringRead {
    /// The text read, how many characters of input it took, and whether the
    /// closing quote was reached.
    Done { text: Seq<char>, used: nat, completed: bool },
    /// An error, and how many times the input was asked for a character
    /// until it showed.
    Fail { text: Seq<char>, reads: nat },
}

/// Whether the text read so far ends the read: it has reached the size asked
/// for, counted in bytes of UTF-8, or a line was asked for and it ends in a line
/// feed.
pub open spec fn read_is_full(out: Seq<char>, limit: Option<usize>, line: bool) -> bool {
    ||| limit matches Some(l) && utf8_len(out) >= l
    ||| line && out.len() > 0 && out.last() == '\n'
}

/// Reading on from the `n`th character of `input`, with `out` already read:
/// characters are taken until the read is full, the string ends or an error
/// shows.
pub open spec fn read_contents(
    input: Seq<char>,
    out: Seq<char>,
    limit: Option<usize>,
    line: bool,
    n: nat,
) -> StringRead
    decreases input.len() - n,
{
    if read_is_full(out, limit, line) {
        StringRead::Done { text: out, used: n, completed: false }
    } else if n > input.len() {
        StringRead::Fail { text: Seq::empty(), reads: n }
    } else {
        match next_item(input.skip(n as int)) {
            StringItem::Char(ch, k) => if 0 < k && n + k <= input.len() {
                read_contents(input, out.push(ch), limit, line, n + k)
            } else {
                StringRead::Fail { text: Seq::empty(), reads: n }
            },
            StringItem::End(k) => StringRead::Done { text: out, used: n + k, completed: true },
            StringItem::Fail(text, k) => StringRead::Fail { text, reads: n + k },
        }
    }
}

/// As much of `input` as `n` reads have consumed: each read takes one
/// character, but for one that finds the input at its end.
pub open spec fn after_reads(input: Seq<char>, n: nat) -> Seq<char> {
    if n <= input.len() {
        input.skip(n as int)
    } else {
        Seq::empty()
    }
}

/// The size that a caller's number asks for: none or a negative number is no
/// limit.
pub open spec fn size_limit(size: Option<isize>) -> Option<usize> {
    match size {
        Some(size) if size >= 0 => Some(size as usize),
        _ => None,
    }
}

/// Whether a result is a failure of the host stream.
pub open spec fn io_failed<T>(r: Result<T, JsonStreamingError>) -> bool {
    r matches Err(JsonStreamingError::IOError(_))
}

/// Whatever comes out of the machine, it took at least one more read, and
/// only an error can come of reading past the end of input.
pub proof fn lemma_scan_item_bounds(
    state: StringState,
    digits: Seq<char>,
    first: Option<u16>,
    input: Seq<char>,
    n: nat,
)
    requires
        n <= input.len(),
    ensures
        match scan_item(state, digits, first, input, n) {
            StringItem::Char(_, k) => n < k <= input.len(),
            StringItem::End(k) => n < k <= input.len(),
            StringItem::Fail(_, k) => n < k <= input.len() + 1,
        },
    decreases input.len() - n,
{
    let c = if n < input.len() {
        CharOrEof::Char(input[n as int])
    } else {
        CharOrEof::Eof
    };
    match string_step(state, digits, first, c) {
        StringStep::Goto(s, d, f) => {
            if n < input.len() {
                lemma_scan_item_bounds(s, d, f, input, n + 1);
            }
        },
        _ => {},
    }
}

/// A streaming reader for the contents of a string within JSON.
///
/// It starts right after the opening quote and ends with the closing one. It
/// holds no input of its own: every call is handed the source to read from.
pub struct JsonStringReader {
    completed: bool,
    state: StringState,
    index: i64,
    unicode_buffer: CompactString,
    prev_charcode: Option<u16>,
}

/// Reads the four hexadecimal digits of a `\u` escape.
fn parse_hex4(digits: &str) -> (r: Option<u16>)
    requires
        digits@.len() == 4,
    ensures
        r == hex4(digits@),
{
    let d0 = hex_digit_value(digits.get_char(0));
    let d1 = hex_digit_value(digits.get_char(1));
    let d2 = hex_digit_value(digits.get_char(2));
    let d3 = hex_digit_value(digits.get_char(3));
    match (d0, d1, d2, d3) {
        (Some(a), Some(b), Some(c), Some(d)) => Some(
            (a as u16) * 4096 + (b as u16) * 256 + (c as u16) * 16 + (d as u16),
        ),
        _ => None,
    }
}

fn short_escape_of(c: char) -> (r: Option<char>)
    ensures
        r == short_escape(c),
{
    if c == '\\' || c == '"' || c == '/' {
        Some(c)
    } else if c == 'b' {
        Some('\u{8}')
    } else if c == 'f' {
        Some('\u{c}')
    } else if c == 'n' {
        Some('\n')
    } else if c == 't' {
        Some('\t')
    } else if c == 'r' {
        Some('\r')
    } else {
        None
    }
}

fn unpaired(c: CharOrEof) -> (e: ParsingError)
    ensures
        e@ == ParsingErrorView::InvalidJson(unpaired_surrogate(c)),
{
    match c {
        CharOrEof::Char(_) => ParsingError::InvalidJson(
            String::from_str("Unpaired UTF-16 surrogate"),
        ),
        CharOrEof::Eof => ParsingError::InvalidJson(
            String::from_str("Unpaired UTF-16 surrogate at end of file"),
        ),
    }
}

impl JsonStringReader {
    pub closed spec fn state(&self) -> StringState {
        self.state
    }

    /// The digits of the `\u` escape in progress.
    pub closed spec fn digits(&self) -> Seq<char> {
        compact_text(self.unicode_buffer)
    }

    /// The surrogate that waits for its partner.
    pub closed spec fn first_half(&self) -> Option<u16> {
        self.prev_charcode
    }

    /// Whether the closing quote has been read.
    pub closed spec fn completed(&self) -> bool {
        self.completed
    }

    /// How many times the source was asked for a character, up to the limit
    /// of the counter.
    pub closed spec fn reads(&self) -> i64 {
        self.index
    }

    /// How many times the source was asked for a character.
    pub fn index(&self) -> (r: i64)
        ensures
            r == self.reads(),
    {
        self.index
    }

    pub open spec fn wf(&self) -> bool {
        string_shape(self.state(), self.digits(), self.first_half()) && self.reads() >= 0
    }

    /// A reader that stands right after the opening quote.
    pub fn new() -> (r: JsonStringReader)
        ensures
            r.wf(),
            r.state() == StringState::String_,
            !r.completed(),
            r.reads() == 0,
    {
        JsonStringReader {
            completed: false,
            state: StringState::String_,
            index: 0,
            unicode_buffer: CompactString::with_capacity(4),
            prev_charcode: None,
        }
    }

    /// Feeds one character to the reader.
    ///
    /// `Ok(Some(Char(c)))` is a character of the string, `Ok(Some(Eof))` its
    /// end (not the end of input, which is an error inside a string), and
    /// `Ok(None)` says that more input is needed. After an error the reader
    /// stands among plain characters.
    pub fn process_char(&mut self, c: CharOrEof) -> (r: Result<Option<CharOrEof>, ParsingError>)
        requires
            old(self).wf(),
        ensures
            final(self).wf(),
            final(self).reads() == old(self).reads(),
            final(self).completed() == old(self).completed(),
            match string_step(old(self).state(), old(self).digits(), old(self).first_half(), c) {
                StringStep::Goto(state, digits, first) => {
                    &&& r == Ok::<Option<CharOrEof>, ParsingError>(None)
                    &&& final(self).state() == state
                    &&& final(self).digits() == digits
                    &&& final(self).first_half() == first
                },
                StringStep::Yield(out) => {
                    &&& r == Ok::<Option<CharOrEof>, ParsingError>(Some(out))
                    &&& final(self).state() == StringState::String_
                },
                StringStep::Fail(text) => {
                    &&& r matches Err(e)
                    &&& e@ == ParsingErrorView::InvalidJson(text)
                    &&& final(self).state() == StringState::String_
                },
            },
    {
        let state = self.state;
        match state {
            StringState::String_ => match c {
                CharOrEof::Eof => self.fail(
                    ParsingError::InvalidJson(
                        String::from_str("Unterminated string at end of file"),
                    ),
                ),
                CharOrEof::Char(ch) => if ch == '"' {
                    Ok(Some(CharOrEof::Eof))
                } else if ch == '\\' {
                    self.state = StringState::StringEscape;
                    Ok(None)
                } else {
                    Ok(Some(c))
                },
            },
            StringState::StringEscape => match c {
                CharOrEof::Eof => self.fail(
                    ParsingError::InvalidJson(
                        String::from_str("Unterminated string at end of file"),
                    ),
                ),
                CharOrEof::Char(ch) => if ch == 'u' {
                    self.state = StringState::Unicode;
                    self.unicode_buffer = CompactString::with_capacity(4);
                    Ok(None)
                } else {
                    match short_escape_of(ch) {
                        Some(out) => {
                            self.state = StringState::String_;
                            Ok(Some(CharOrEof::Char(out)))
                        },
                        None => self.fail(
                            ParsingError::invalid(
                                "Invalid string escape: ",
                                c.display_text().as_str(),
                            ),
                        ),
                    }
                },
            },
            StringState::Unicode => match c {
                CharOrEof::Eof => self.fail(
                    ParsingError::InvalidJson(
                        String::from_str("Unterminated unicode literal at end of file"),
                    ),
                ),
                CharOrEof::Char(ch) => {
                    self.unicode_buffer.push(ch);
                    if self.unicode_buffer.as_str().unicode_len() < 4 {
                        return Ok(None);
                    }
                    let parsed = parse_hex4(self.unicode_buffer.as_str());
                    let Some(charcode) = parsed else {
                        let e = ParsingError::invalid(
                            "Invalid unicode literal: \\u",
                            self.unicode_buffer.as_str(),
                        );
                        return self.fail(e);
                    };
                    self.unicode_buffer = CompactString::with_capacity(4);
                    match char::from_u32(charcode as u32) {
                        Some(unicode_char) => {
                            self.state = StringState::String_;
                            Ok(Some(CharOrEof::Char(unicode_char)))
                        },
                        None => {
                            self.prev_charcode = Some(charcode);
                            self.state = StringState::UnicodeSurrogateStart;
                            Ok(None)
                        },
                    }
                },
            },
            StringState::UnicodeSurrogateStart => match c {
                CharOrEof::Char(ch) if ch == '\\' => {
                    self.state = StringState::UnicodeSurrogateStringEscape;
                    Ok(None)
                },
                _ => self.fail(unpaired(c)),
            },
            StringState::UnicodeSurrogateStringEscape => match c {
                CharOrEof::Char(ch) if ch == 'u' => {
                    self.unicode_buffer = CompactString::with_capacity(4);
                    self.state = StringState::UnicodeSurrogate;
                    Ok(None)
                },
                _ => self.fail(unpaired(c)),
            },
            StringState::UnicodeSurrogate => match c {
                CharOrEof::Eof => self.fail(
                    ParsingError::InvalidJson(
                        String::from_str("Unterminated unicode literal at end of file"),
                    ),
                ),
                CharOrEof::Char(ch) => {
                    self.unicode_buffer.push(ch);
                    if self.unicode_buffer.as_str().unicode_len() < 4 {
                        return Ok(None);
                    }
                    let parsed = parse_hex4(self.unicode_buffer.as_str());
                    let Some(charcode) = parsed else {
                        let e = ParsingError::invalid(
                            "Invalid unicode literal: \\u",
                            self.unicode_buffer.as_str(),
                        );
                        return self.fail(e);
                    };
                    if !is_surrogate(charcode) {
                        return self.fail(
                            ParsingError::InvalidJson(
                                String::from_str(
                                    "Second half of UTF-16 surrogate pair is not a surrogate!",
                                ),
                            ),
                        );
                    }
                    let Some(prev_charcode) = self.prev_charcode else {
                        return self.fail(
                            ParsingError::InvalidJson(
                                String::from_str(
                                    "This should never happen, please report it as a bug...",
                                ),
                            ),
                        );
                    };
                    match decode_surrogate_pair(prev_charcode, charcode) {
                        Ok(decoded) => {
                            self.prev_charcode = None;
                            self.unicode_buffer = CompactString::with_capacity(4);
                            self.state = StringState::String_;
                            Ok(Some(CharOrEof::Char(decoded)))
                        },
                        Err(_) => {
                            let mut text = String::from_str(
                                "Error decoding UTF-16 surrogate pair \\u",
                            );
                            push_lower_hex(&mut text, prev_charcode);
                            text.append("\\u");
                            push_lower_hex(&mut text, charcode);
                            self.fail(ParsingError::InvalidJson(text))
                        },
                    }
                },
            },
        }
    }

    /// The reader stands among plain characters, where every read begins and
    /// ends.
    pub open spec fn ready(&self) -> bool {
        self.wf() && self.state() == StringState::String_
    }

    /// Reads input until one character of the string comes out, or its end.
    pub fn read_and_process_until_1_char<S: Utf8CharSource>(&mut self, stream: &mut S) -> (r:
        Result<CharOrEof, JsonStreamingError>)
        requires
            old(self).ready(),
            old(stream).wf(),
        ensures
            final(self).reads() >= old(self).reads(),
            old(stream).reliable() ==> !io_failed(r) && final(stream).reliable(),
            io_failed(r) || {
                &&& final(stream).wf()
                &&& final(self).ready()
                &&& final(self).completed() == old(self).completed()
                &&& match next_item(old(stream).pending()) {
                    StringItem::Char(ch, k) => {
                        &&& r matches Ok(CharOrEof::Char(c))
                        &&& c == ch
                        &&& final(stream).pending() == after_reads(old(stream).pending(), k)
                        &&& final(self).reads() == advanced(old(self).reads(), k)
                    },
                    StringItem::End(k) => {
                        &&& r matches Ok(CharOrEof::Eof)
                        &&& final(stream).pending() == after_reads(old(stream).pending(), k)
                        &&& final(self).reads() == advanced(old(self).reads(), k)
                    },
                    StringItem::Fail(text, k) => {
                        &&& r matches Err(JsonStreamingError::ParsingError(e))
                        &&& e@ == ParsingErrorView::InvalidJson(text)
                        &&& final(stream).pending() == after_reads(old(stream).pending(), k)
                        &&& final(self).reads() == advanced(old(self).reads(), k)
                    },
                }
            },
    {
        let ghost input = stream.pending();
        let ghost mut n: nat = 0;
        proof {
            assert(self.digits() == Seq::<char>::empty());
            assert(input.skip(0) == input);
        }
        loop
            invariant
                input == old(stream).pending(),
                old(stream).reliable() ==> stream.reliable(),
                self.reads() >= old(self).reads(),
                stream.wf(),
                self.wf(),
                n <= input.len(),
                stream.pending() == input.skip(n as int),
                scan_item(self.state(), self.digits(), self.first_half(), input, n) == next_item(
                    input,
                ),
                self.reads() == advanced(old(self).reads(), n),
                self.completed() == old(self).completed(),
            decreases input.len() - n,
        {
            let c: CharOrEof = match stream.read_char() {
                Ok(c) => CharOrEof::from(c),
                Err(e) => {
                    return Err(JsonStreamingError::IOError(e));
                },
            };
            self.index = advance(self.index);
            proof {
                lemma_advanced_twice(old(self).reads(), n, 1);
                assert(c == if n < input.len() {
                    CharOrEof::Char(input[n as int])
                } else {
                    CharOrEof::Eof
                });
                if n < input.len() {
                    assert(stream.pending() == input.skip(n as int + 1));
                } else {
                    assert(stream.pending() == Seq::<char>::empty());
                }
            }
            match self.process_char(c) {
                Ok(Some(out)) => {
                    return Ok(out);
                },
                Ok(None) => {
                    proof {
                        n = n + 1;
                    }
                },
                Err(e) => {
                    return Err(JsonStreamingError::ParsingError(e));
                },
            }
        }
    }

    /// Reads on until the read is full, the string ends or an error shows.
    fn collect<S: Utf8CharSource>(
        &mut self,
        stream: &mut S,
        max_n_chars: Option<usize>,
        line: bool,
    ) -> (r: Result<String, JsonStreamingError>)
        requires
            old(self).ready(),
            !old(self).completed(),
            old(stream).wf(),
        ensures
            final(self).reads() >= old(self).reads(),
            old(stream).reliable() ==> !io_failed(r) && final(stream).reliable(),
            io_failed(r) || {
                &&& final(stream).wf()
                &&& final(self).ready()
                &&& match read_contents(
                    old(stream).pending(),
                    Seq::empty(),
                    max_n_chars,
                    line,
                    0,
                ) {
                    StringRead::Done { text, used, completed } => {
                        &&& r matches Ok(s)
                        &&& s@ == text
                        &&& final(stream).pending() == after_reads(old(stream).pending(), used)
                        &&& final(self).reads() == advanced(old(self).reads(), used)
                        &&& final(self).completed() == completed
                    },
                    StringRead::Fail { text, reads } => {
                        &&& r matches Err(JsonStreamingError::ParsingError(e))
                        &&& e@ == ParsingErrorView::InvalidJson(text)
                        &&& final(stream).pending() == after_reads(old(stream).pending(), reads)
                        &&& final(self).reads() == advanced(old(self).reads(), reads)
                        &&& !final(self).completed()
                    },
                }
            },
    {
        let ghost input = stream.pending();
        let ghost mut n: nat = 0;
        let mut s = String::new();
        let mut line_ended = false;
        proof {
            assert(input.skip(0) == input);
        }
        loop
            invariant
                input == old(stream).pending(),
                old(stream).reliable() ==> stream.reliable(),
                self.reads() >= old(self).reads(),
                stream.wf(),
                self.ready(),
                !self.completed(),
                n <= input.len(),
                stream.pending() == input.skip(n as int),
                read_contents(input, s@, max_n_chars, line, n) == read_contents(
                    input,
                    Seq::empty(),
                    max_n_chars,
                    line,
                    0,
                ),
                self.reads() == advanced(old(self).reads(), n),
                line_ended == (line && s@.len() > 0 && s@.last() == '\n'),
            decreases input.len() - n,
        {
            let full = line_ended || match max_n_chars {
                Some(limit) => s.as_str().len() >= limit,
                None => false,
            };
            if full {
                return Ok(s);
            }
            proof {
                lemma_scan_item_bounds(
                    StringState::String_,
                    Seq::empty(),
                    None,
                    input.skip(n as int),
                    0,
                );
            }
            let ghost before = self.reads();
            match self.read_and_process_until_1_char(stream) {
                Ok(CharOrEof::Char(c)) => {
                    proof {
                        let k = next_item(input.skip(n as int))->Char_1;
                        lemma_advanced_twice(old(self).reads(), n, k);
                        assert(stream.pending() == input.skip((n + k) as int));
                        n = n + k;
                    }
                    s.push(c);
                    line_ended = line && c == '\n';
                },
                Ok(CharOrEof::Eof) => {
                    proof {
                        let k = next_item(input.skip(n as int))->End_0;
                        lemma_advanced_twice(old(self).reads(), n, k);
                        assert(stream.pending() == input.skip((n + k) as int));
                    }
                    self.completed = true;
                    return Ok(s);
                },
                Err(e) => {
                    proof {
                        if !io_failed::<CharOrEof>(Err(e)) {
                            let k = next_item(input.skip(n as int))->Fail_1;
                            lemma_advanced_twice(old(self).reads(), n, k);
                            if n + k <= input.len() {
                                assert(stream.pending() == input.skip((n + k) as int));
                            }
                        }
                    }
                    return Err(e);
                },
            }
        }
    }

    /// Reads up to `max_n_chars` bytes' worth of the string, or all of it.
    ///
    /// Characters are read whole, one after another, until the text read takes
    /// up at least that many bytes in UTF-8 or the string ends. Once the
    /// closing quote has been read there is nothing more: the result is
    /// empty.
    pub fn read_string_contents<S: Utf8CharSource>(
        &mut self,
        stream: &mut S,
        max_n_chars: Option<usize>,
    ) -> (r: Result<String, JsonStreamingError>)
        requires
            old(self).ready(),
            old(stream).wf(),
        ensures
            final(self).reads() >= old(self).reads(),
            old(stream).reliable() ==> !io_failed(r) && final(stream).reliable(),
            old(self).completed() ==> {
                &&& r matches Ok(s)
                &&& s@.len() == 0
                &&& *final(self) == *old(self)
                &&& *final(stream) == *old(stream)
            },
            !old(self).completed() ==> io_failed(r) || {
                &&& final(stream).wf()
                &&& final(self).ready()
                &&& match read_contents(
                    old(stream).pending(),
                    Seq::empty(),
                    max_n_chars,
                    false,
                    0,
                ) {
                    StringRead::Done { text, used, completed } => {
                        &&& r matches Ok(s)
                        &&& s@ == text
                        &&& final(stream).pending() == after_reads(old(stream).pending(), used)
                        &&& final(self).reads() == advanced(old(self).reads(), used)
                        &&& final(self).completed() == completed
                    },
                    StringRead::Fail { text, reads } => {
                        &&& r matches Err(JsonStreamingError::ParsingError(e))
                        &&& e@ == ParsingErrorView::InvalidJson(text)
                        &&& final(stream).pending() == after_reads(old(stream).pending(), reads)
                        &&& final(self).reads() == advanced(old(self).reads(), reads)
                        &&& !final(self).completed()
                    },
                }
            },
    {
        if self.completed {
            return Ok(String::new());
        }
        self.collect(stream, max_n_chars, false)
    }

    /// Reads up to and including the next line feed, within the same limit
    /// as `read_string_contents`. Once the closing quote has been read the
    /// result is `None`.
    pub fn read_until_newline<S: Utf8CharSource>(
        &mut self,
        stream: &mut S,
        max_n_chars: Option<usize>,
    ) -> (r: Result<Option<String>, JsonStreamingError>)
        requires
            old(self).ready(),
            old(stream).wf(),
        ensures
            final(self).reads() >= old(self).reads(),
            old(stream).reliable() ==> !io_failed(r) && final(stream).reliable(),
            old(self).completed() ==> {
                &&& r matches Ok(None)
                &&& *final(self) == *old(self)
                &&& *final(stream) == *old(stream)
            },
            !old(self).completed() ==> io_failed(r) || {
                &&& final(stream).wf()
                &&& final(self).ready()
                &&& match read_contents(
                    old(stream).pending(),
                    Seq::empty(),
                    max_n_chars,
                    true,
                    0,
                ) {
                    StringRead::Done { text, used, completed } => {
                        &&& r matches Ok(Some(s))
                        &&& s@ == text
                        &&& final(stream).pending() == after_reads(old(stream).pending(), used)
                        &&& final(self).reads() == advanced(old(self).reads(), used)
                        &&& final(self).completed() == completed
                    },
                    StringRead::Fail { text, reads } => {
                        &&& r matches Err(JsonStreamingError::ParsingError(e))
                        &&& e@ == ParsingErrorView::InvalidJson(text)
                        &&& final(stream).pending() == after_reads(old(stream).pending(), reads)
                        &&& final(self).reads() == advanced(old(self).reads(), reads)
                        &&& !final(self).completed()
                    },
                }
            },
    {
        if self.completed {
            return Ok(None);
        }
        match self.collect(stream, max_n_chars, true) {
            Ok(s) => Ok(Some(s)),
            Err(e) => Err(e),
        }
    }

    /// Reads up to `size` bytes' worth of the string; all of it where `size`
    /// is absent or negative.
    pub fn read<S: Utf8CharSource>(&mut self, stream: &mut S, size: Option<isize>) -> (r: Result<
        String,
        JsonStreamingError,
    >)
        requires
            old(self).ready(),
            old(stream).wf(),
        ensures
            final(self).reads() >= old(self).reads(),
            old(stream).reliable() ==> !io_failed(r) && final(stream).reliable(),
            old(self).completed() ==> {
                &&& r matches Ok(s)
                &&& s@.len() == 0
                &&& *final(self) == *old(self)
                &&& *final(stream) == *old(stream)
            },
            !old(self).completed() ==> io_failed(r) || {
                &&& final(stream).wf()
                &&& final(self).ready()
                &&& match read_contents(
                    old(stream).pending(),
                    Seq::empty(),
                    size_limit(size),
                    false,
                    0,
                ) {
                    StringRead::Done { text, used, completed } => {
                        &&& r matches Ok(s)
                        &&& s@ == text
                        &&& final(stream).pending() == after_reads(old(stream).pending(), used)
                        &&& final(self).reads() == advanced(old(self).reads(), used)
                        &&& final(self).completed() == completed
                    },
                    StringRead::Fail { text, reads } => {
                        &&& r matches Err(JsonStreamingError::ParsingError(e))
                        &&& e@ == ParsingErrorView::InvalidJson(text)
                        &&& final(stream).pending() == after_reads(old(stream).pending(), reads)
                        &&& final(self).reads() == advanced(old(self).reads(), reads)
                        &&& !final(self).completed()
                    },
                }
            },
    {
        let max_n_chars: Option<usize> = match size {
            None => None,
            Some(size) if size < 0 => None,
            Some(size) if size == 0 => {
                proof {
                    assert(stream.pending().skip(0) == stream.pending());
                }
                return Ok(String::new());
            },
            Some(size) => Some(size as usize),
        };
        self.read_string_contents(stream, max_n_chars)
    }

    /// Reads up to and including the next line feed, or up to `size` bytes'
    /// worth. A `size` of zero gives an empty line whatever the reader's state;
    /// otherwise the result is `None` once the closing quote has been read.
    pub fn readline<S: Utf8CharSource>(&mut self, stream: &mut S, size: Option<isize>) -> (r:
        Result<Option<String>, JsonStreamingError>)
        requires
            old(self).ready(),
            old(stream).wf(),
        ensures
            final(self).reads() >= old(self).reads(),
            old(stream).reliable() ==> !io_failed(r) && final(stream).reliable(),
            size == Some(0isize) ==> {
                &&& r matches Ok(Some(s))
                &&& s@.len() == 0
                &&& *final(self) == *old(self)
                &&& *final(stream) == *old(stream)
            },
            size != Some(0isize) && old(self).completed() ==> {
                &&& r matches Ok(None)
                &&& *final(self) == *old(self)
                &&& *final(stream) == *old(stream)
            },
            size != Some(0isize) && !old(self).completed() ==> io_failed(r) || {
                &&& final(stream).wf()
                &&& final(self).ready()
                &&& match read_contents(
                    old(stream).pending(),
                    Seq::empty(),
                    size_limit(size),
                    true,
                    0,
                ) {
                    StringRead::Done { text, used, completed } => {
                        &&& r matches Ok(Some(s))
                        &&& s@ == text
                        &&& final(stream).pending() == after_reads(old(stream).pending(), used)
                        &&& final(self).reads() == advanced(old(self).reads(), used)
                        &&& final(self).completed() == completed
                    },
                    StringRead::Fail { text, reads } => {
                        &&& r matches Err(JsonStreamingError::ParsingError(e))
                        &&& e@ == ParsingErrorView::InvalidJson(text)
                        &&& final(stream).pending() == after_reads(old(stream).pending(), reads)
                        &&& final(self).reads() == advanced(old(self).reads(), reads)
                        &&& !final(self).completed()
                    },
                }
            },
    {
        let max_n_chars: Option<usize> = match size {
            None => None,
            Some(size) if size < 0 => None,
            Some(size) if size == 0 => {
                return Ok(Some(String::new()));
            },
            Some(size) => Some(size as usize),
        };
        self.read_until_newline(stream, max_n_chars)
    }

    /// Gives up on the escape in progress and reports `e`.
    fn fail(&mut self, e: ParsingError) -> (r: Result<Option<CharOrEof>, ParsingError>)
        requires
            old(self).reads() >= 0,
        ensures
            r == Err::<Option<CharOrEof>, ParsingError>(e),
            final(self).wf(),
            final(self).state() == StringState::String_,
            final(self).reads() == old(self).reads(),
            final(self).completed() == old(self).completed(),
    {
        self.state = StringState::String_;
        self.unicode_buffer = CompactString::with_capacity(4);
        self.prev_charcode = None;
        Err(e)
    }
}

} // verus!

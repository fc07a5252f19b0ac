//! The tokenizer: a state machine that is fed one character at a time and
//! emits JSON tokens.

use crate::char_or_eof::CharOrEof;
use crate::error::{JsonStreamingError, ParsingError, ParsingErrorView};
use crate::grammar::{
    collected_fits, lemma_integer_collected, lemma_kept, lemma_written_number, written_number,
};
use crate::integer::{integer_text_value, is_digit, AppropriateInt, ParseIntError};
use crate::json_string_reader::{
    after_reads, io_failed, read_contents, JsonStringReader, StringRead,
};
use crate::suitable_stream::SuitableStream;
use crate::park_cursor::ParkCursorChars;
use crate::remainder::{Remainder, StreamData};
use crate::text::{advance, advance_by, advanced, lemma_advanced_twice, unicode_whitespace};
use crate::utf8_char_source::Utf8CharSource;
use vstd::prelude::*;

verus! {

/// The kinds of token.
#[derive(Clone, Copy, Debug, PartialEq, Eq, Structural)]
pub enum TokenType {
    Operator,
    String_,
    Number,
    Boolean,
    Null,
}

/// The states of the tokenizer. Exactly one is active at a time.
#[derive(Clone, Copy, Debug, PartialEq, Eq, Structural)]
pub enum State {
    /// Between tokens.
    Whitespace,
    /// After a leading `0`.
    Integer0,
    /// After a leading `-`.
    IntegerSign,
    /// Within the digits of an integer.
    Integer,
    /// Within the digits of an exponent.
    IntegerExp,
    /// After the exponent marker.
    IntegerExp0,
    /// After the sign of an exponent.
    IntegerExpSign,
    /// After the decimal point.
    FloatingPoint0,
    /// Within the digits of a fraction.
    FloatingPoint,
    /// After the closing quote of a string.
    StringEnd,
    True1,
    True2,
    True3,
    /// After the last letter of `true`.
    TrueEnd,
    False1,
    False2,
    False3,
    False4,
    /// After the last letter of `false`.
    FalseEnd,
    Null1,
    Null2,
    Null3,
    /// After the last letter of `null`.
    NullEnd,
}

/// A token.
#[derive(Debug, PartialEq)]
pub enum Token {
    /// One of the six structural characters.
    Operator(char),
    /// A string: its contents where they were read in full, `None` where they
    /// are still to be read from the input.
    String_(Option<String>),
    Integer(AppropriateInt),
    /// A number with a fraction or an exponent, as it is written.
    Float(String),
    Boolean(bool),
    Null,
}

/// A token with its contents as mathematical values.
pub enum TokenView {
    Operator(char),
    String_(Option<Seq<char>>),
    Integer(int),
    Float(Seq<char>),
    Boolean(bool),
    Null,
}

impl View for Token {
    type V = TokenView;

    open spec fn view(&self) -> TokenView {
        match self {
            Token::Operator(c) => TokenView::Operator(*c),
            Token::String_(s) => TokenView::String_(
                match s {
                    Some(s) => Some(s@),
                    None => None,
                },
            ),
            Token::Integer(n) => TokenView::Integer(n@),
            Token::Float(s) => TokenView::Float(s@),
            Token::Boolean(b) => TokenView::Boolean(*b),
            Token::Null => TokenView::Null,
        }
    }
}

impl Token {
    /// An integer is held in the smallest representation that fits it.
    pub open spec fn wf(&self) -> bool {
        self matches Token::Integer(n) ==> n.canonical()
    }

    /// The kind of the token.
    pub fn token_type(&self) -> (t: TokenType)
        ensures
            t == match self {
                Token::Operator(_) => TokenType::Operator,
                Token::String_(_) => TokenType::String_,
                Token::Integer(_) => TokenType::Number,
                Token::Float(_) => TokenType::Number,
                Token::Boolean(_) => TokenType::Boolean,
                Token::Null => TokenType::Null,
            },
    {
        match self {
            Token::Operator(_) => TokenType::Operator,
            Token::String_(_) => TokenType::String_,
            Token::Integer(_) => TokenType::Number,
            Token::Float(_) => TokenType::Number,
            Token::Boolean(_) => TokenType::Boolean,
            Token::Null => TokenType::Null,
        }
    }
}

/// The six structural characters of JSON.
pub open spec fn operator(c: char) -> bool {
    c == '{' || c == '}' || c == '[' || c == ']' || c == ',' || c == ':'
}

/// What may follow a number, a keyword or a string: whitespace, a structural
/// character, or the end of input.
pub open spec fn delimiter(c: CharOrEof) -> bool {
    match c {
        CharOrEof::Char(c) => unicode_whitespace(c) || operator(c),
        CharOrEof::Eof => true,
    }
}

pub fn is_operator(c: char) -> (r: bool)
    ensures
        r == operator(c),
{
    c == '{' || c == '}' || c == '[' || c == ']' || c == ',' || c == ':'
}

pub fn is_delimiter(c: CharOrEof) -> (r: bool)
    ensures
        r == delimiter(c),
{
    match c {
        CharOrEof::Char(c_) => c_.is_whitespace() || is_operator(c_),
        CharOrEof::Eof => true,
    }
}

/// What a completed token is made from.
#[derive(Clone, Copy, Debug, PartialEq, Eq, Structural)]
pub enum Lexeme {
    Operator(char),
    /// The opening quote of a string.
    StringStart,
    /// `0` or `-0`.
    Zero,
    /// The digits collected are an integer.
    Integer,
    /// The characters collected are a number with a fraction or an exponent.
    Float,
    Boolean(bool),
    Null,
}

/// The ways in which a character can be out of place.
#[derive(Clone, Copy, Debug, PartialEq, Eq, Structural)]
pub enum Complaint {
    InvalidCharacter,
    DigitsOnly,
    AfterZero,
    AfterMinus,
    AfterExponent,
    ExponentDigits,
    ExponentMissing,
    FractionDigits,
    FractionMissing,
    AfterString,
}

/// What one character does to the machine in a given state.
#[derive(Clone, Copy, Debug, PartialEq, Eq, Structural)]
pub enum Step {
    /// The character is consumed and dropped.
    Skip(State),
    /// The character is consumed and joins the text of the token in progress.
    Keep(State),
    /// The character is not consumed: it is looked at again in the new state.
    Pass(State),
    /// A token is complete. The flag tells whether the character only ended
    /// it and is held back, to be looked at again as the start of what follows.
    Emit(Lexeme, State, bool),
    /// The character is out of place.
    Fail(Complaint),
}

pub open spec fn exponent_marker(c: char) -> bool {
    c == 'e' || c == 'E'
}

/// The step for a state that waits for one particular letter of a keyword.
pub open spec fn expect_letter(c: CharOrEof, letter: char, next: State) -> Step {
    if c == CharOrEof::Char(letter) {
        Step::Skip(next)
    } else {
        Step::Fail(Complaint::InvalidCharacter)
    }
}

/// The step for a state that has seen a whole keyword and waits for its end.
pub open spec fn expect_end(c: CharOrEof, lexeme: Lexeme) -> Step {
    if delimiter(c) {
        Step::Emit(lexeme, State::Whitespace, true)
    } else {
        Step::Fail(Complaint::InvalidCharacter)
    }
}

/// The transition table of the tokenizer.
pub open spec fn step(state: State, c: CharOrEof) -> Step {
    match state {
        State::Whitespace => match c {
            CharOrEof::Eof => Step::Skip(State::Whitespace),
            CharOrEof::Char(ch) => if operator(ch) {
                Step::Emit(Lexeme::Operator(ch), State::Whitespace, false)
            } else if ch == '"' {
                Step::Emit(Lexeme::StringStart, State::StringEnd, false)
            } else if '1' <= ch <= '9' {
                Step::Keep(State::Integer)
            } else if ch == '0' {
                Step::Keep(State::Integer0)
            } else if ch == '-' {
                Step::Keep(State::IntegerSign)
            } else if ch == 'f' {
                Step::Skip(State::False1)
            } else if ch == 't' {
                Step::Skip(State::True1)
            } else if ch == 'n' {
                Step::Skip(State::Null1)
            } else if unicode_whitespace(ch) {
                Step::Skip(State::Whitespace)
            } else {
                Step::Fail(Complaint::InvalidCharacter)
            },
        },
        State::Integer => match c {
            CharOrEof::Char(ch) if is_digit(ch) => Step::Keep(State::Integer),
            CharOrEof::Char(ch) if ch == '.' => Step::Keep(State::FloatingPoint0),
            CharOrEof::Char(ch) if exponent_marker(ch) => Step::Keep(State::IntegerExp0),
            _ => if delimiter(c) {
                Step::Emit(Lexeme::Integer, State::Whitespace, true)
            } else {
                Step::Fail(Complaint::DigitsOnly)
            },
        },
        State::Integer0 => match c {
            CharOrEof::Char(ch) if ch == '.' => Step::Keep(State::FloatingPoint0),
            CharOrEof::Char(ch) if exponent_marker(ch) => Step::Keep(State::IntegerExp0),
            _ => if delimiter(c) {
                Step::Emit(Lexeme::Zero, State::Whitespace, true)
            } else {
                Step::Fail(Complaint::AfterZero)
            },
        },
        State::IntegerSign => match c {
            CharOrEof::Char(ch) if ch == '0' => Step::Keep(State::Integer0),
            CharOrEof::Char(ch) if '1' <= ch <= '9' => Step::Keep(State::Integer),
            _ => Step::Fail(Complaint::AfterMinus),
        },
        State::IntegerExp0 => match c {
            CharOrEof::Char(ch) if ch == '+' || ch == '-' => Step::Keep(State::IntegerExpSign),
            CharOrEof::Char(ch) if is_digit(ch) => Step::Keep(State::IntegerExp),
            _ => Step::Fail(Complaint::AfterExponent),
        },
        State::IntegerExpSign => match c {
            CharOrEof::Char(ch) if is_digit(ch) => Step::Keep(State::IntegerExp),
            _ => if delimiter(c) {
                Step::Fail(Complaint::ExponentMissing)
            } else {
                Step::Fail(Complaint::ExponentDigits)
            },
        },
        State::IntegerExp => match c {
            CharOrEof::Char(ch) if is_digit(ch) => Step::Keep(State::IntegerExp),
            _ => if delimiter(c) {
                Step::Emit(Lexeme::Float, State::Whitespace, true)
            } else {
                Step::Fail(Complaint::ExponentDigits)
            },
        },
        State::FloatingPoint => match c {
            CharOrEof::Char(ch) if is_digit(ch) => Step::Keep(State::FloatingPoint),
            CharOrEof::Char(ch) if exponent_marker(ch) => Step::Keep(State::IntegerExp0),
            _ => if delimiter(c) {
                Step::Emit(Lexeme::Float, State::Whitespace, true)
            } else {
                Step::Fail(Complaint::FractionDigits)
            },
        },
        State::FloatingPoint0 => match c {
            CharOrEof::Char(ch) if is_digit(ch) => Step::Keep(State::FloatingPoint),
            _ => Step::Fail(Complaint::FractionMissing),
        },
        State::False1 => expect_letter(c, 'a', State::False2),
        State::False2 => expect_letter(c, 'l', State::False3),
        State::False3 => expect_letter(c, 's', State::False4),
        State::False4 => expect_letter(c, 'e', State::FalseEnd),
        State::FalseEnd => expect_end(c, Lexeme::Boolean(false)),
        State::True1 => expect_letter(c, 'r', State::True2),
        State::True2 => expect_letter(c, 'u', State::True3),
        State::True3 => expect_letter(c, 'e', State::TrueEnd),
        State::TrueEnd => expect_end(c, Lexeme::Boolean(true)),
        State::Null1 => expect_letter(c, 'u', State::Null2),
        State::Null2 => expect_letter(c, 'l', State::Null3),
        State::Null3 => expect_letter(c, 'l', State::NullEnd),
        State::NullEnd => expect_end(c, Lexeme::Null),
        State::StringEnd => if delimiter(c) {
            Step::Pass(State::Whitespace)
        } else {
            Step::Fail(Complaint::AfterString)
        },
    }
}

/// The text of a complaint about the character `c`.
pub open spec fn complaint_text(k: Complaint, c: CharOrEof) -> Seq<char> {
    match k {
        Complaint::InvalidCharacter => "Invalid JSON character: "@ + c.debug_view(),
        Complaint::DigitsOnly => "A number must contain only digits.  Got "@ + c.debug_view(),
        Complaint::AfterZero => "A 0 must be followed by a '.' | a 'e'.  Got "@ + c.debug_view(),
        Complaint::AfterMinus => "A - must be followed by a digit.  Got "@ + c.debug_view(),
        Complaint::AfterExponent => "An e in a number must be followed by a '+', '-' | digit.  Got "@
            + c.debug_view(),
        Complaint::ExponentDigits => "A number exponent must consist only of digits.  Got "@
            + c.debug_view(),
        Complaint::ExponentMissing => "error parsing float: invalid float literal"@,
        Complaint::FractionDigits => "A number must include only digits"@,
        Complaint::FractionMissing => "A number with a decimal point must be followed by a fractional part"@,
        Complaint::AfterString => "Expected whitespace | an operator after strin.  Got "@
            + c.debug_view(),
    }
}

/// The token that a lexeme makes of the text collected for it.
pub open spec fn lexeme_token(lexeme: Lexeme, text: Seq<char>) -> TokenView {
    match lexeme {
        Lexeme::Operator(c) => TokenView::Operator(c),
        Lexeme::StringStart => TokenView::String_(None),
        Lexeme::Zero => TokenView::Integer(0),
        Lexeme::Integer => TokenView::Integer(integer_text_value(text)),
        Lexeme::Float => TokenView::Float(text),
        Lexeme::Boolean(b) => TokenView::Boolean(b),
        Lexeme::Null => TokenView::Null,
    }
}

fn expect_letter_step(c: CharOrEof, letter: char, next: State) -> (s: Step)
    ensures
        s == expect_letter(c, letter, next),
{
    match c {
        CharOrEof::Char(ch) if ch == letter => Step::Skip(next),
        _ => Step::Fail(Complaint::InvalidCharacter),
    }
}

fn expect_end_step(c: CharOrEof, lexeme: Lexeme) -> (s: Step)
    ensures
        s == expect_end(c, lexeme),
{
    if is_delimiter(c) {
        Step::Emit(lexeme, State::Whitespace, true)
    } else {
        Step::Fail(Complaint::InvalidCharacter)
    }
}

fn is_decimal_digit(c: char) -> (r: bool)
    ensures
        r == is_digit(c),
{
    '0' <= c && c <= '9'
}

/// Looks up the transition table.
pub fn transition(state: State, c: CharOrEof) -> (s: Step)
    ensures
        s == step(state, c),
{
    match state {
        State::Whitespace => match c {
            CharOrEof::Eof => Step::Skip(State::Whitespace),
            CharOrEof::Char(ch) => if is_operator(ch) {
                Step::Emit(Lexeme::Operator(ch), State::Whitespace, false)
            } else if ch == '"' {
                Step::Emit(Lexeme::StringStart, State::StringEnd, false)
            } else if '1' <= ch && ch <= '9' {
                Step::Keep(State::Integer)
            } else if ch == '0' {
                Step::Keep(State::Integer0)
            } else if ch == '-' {
                Step::Keep(State::IntegerSign)
            } else if ch == 'f' {
                Step::Skip(State::False1)
            } else if ch == 't' {
                Step::Skip(State::True1)
            } else if ch == 'n' {
                Step::Skip(State::Null1)
            } else if ch.is_whitespace() {
                Step::Skip(State::Whitespace)
            } else {
                Step::Fail(Complaint::InvalidCharacter)
            },
        },
        State::Integer => match c {
            CharOrEof::Char(ch) if is_decimal_digit(ch) => Step::Keep(State::Integer),
            CharOrEof::Char(ch) if ch == '.' => Step::Keep(State::FloatingPoint0),
            CharOrEof::Char(ch) if ch == 'e' || ch == 'E' => Step::Keep(State::IntegerExp0),
            _ => if is_delimiter(c) {
                Step::Emit(Lexeme::Integer, State::Whitespace, true)
            } else {
                Step::Fail(Complaint::DigitsOnly)
            },
        },
        State::Integer0 => match c {
            CharOrEof::Char(ch) if ch == '.' => Step::Keep(State::FloatingPoint0),
            CharOrEof::Char(ch) if ch == 'e' || ch == 'E' => Step::Keep(State::IntegerExp0),
            _ => if is_delimiter(c) {
                Step::Emit(Lexeme::Zero, State::Whitespace, true)
            } else {
                Step::Fail(Complaint::AfterZero)
            },
        },
        State::IntegerSign => match c {
            CharOrEof::Char(ch) if ch == '0' => Step::Keep(State::Integer0),
            CharOrEof::Char(ch) if '1' <= ch && ch <= '9' => Step::Keep(State::Integer),
            _ => Step::Fail(Complaint::AfterMinus),
        },
        State::IntegerExp0 => match c {
            CharOrEof::Char(ch) if ch == '+' || ch == '-' => Step::Keep(State::IntegerExpSign),
            CharOrEof::Char(ch) if is_decimal_digit(ch) => Step::Keep(State::IntegerExp),
            _ => Step::Fail(Complaint::AfterExponent),
        },
        State::IntegerExpSign => match c {
            CharOrEof::Char(ch) if is_decimal_digit(ch) => Step::Keep(State::IntegerExp),
            _ => if is_delimiter(c) {
                Step::Fail(Complaint::ExponentMissing)
            } else {
                Step::Fail(Complaint::ExponentDigits)
            },
        },
        State::IntegerExp => match c {
            CharOrEof::Char(ch) if is_decimal_digit(ch) => Step::Keep(State::IntegerExp),
            _ => if is_delimiter(c) {
                Step::Emit(Lexeme::Float, State::Whitespace, true)
            } else {
                Step::Fail(Complaint::ExponentDigits)
            },
        },
        State::FloatingPoint => match c {
            CharOrEof::Char(ch) if is_decimal_digit(ch) => Step::Keep(State::FloatingPoint),
            CharOrEof::Char(ch) if ch == 'e' || ch == 'E' => Step::Keep(State::IntegerExp0),
            _ => if is_delimiter(c) {
                Step::Emit(Lexeme::Float, State::Whitespace, true)
            } else {
                Step::Fail(Complaint::FractionDigits)
            },
        },
        State::FloatingPoint0 => match c {
            CharOrEof::Char(ch) if is_decimal_digit(ch) => Step::Keep(State::FloatingPoint),
            _ => Step::Fail(Complaint::FractionMissing),
        },
        State::False1 => expect_letter_step(c, 'a', State::False2),
        State::False2 => expect_letter_step(c, 'l', State::False3),
        State::False3 => expect_letter_step(c, 's', State::False4),
        State::False4 => expect_letter_step(c, 'e', State::FalseEnd),
        State::FalseEnd => expect_end_step(c, Lexeme::Boolean(false)),
        State::True1 => expect_letter_step(c, 'r', State::True2),
        State::True2 => expect_letter_step(c, 'u', State::True3),
        State::True3 => expect_letter_step(c, 'e', State::TrueEnd),
        State::TrueEnd => expect_end_step(c, Lexeme::Boolean(true)),
        State::Null1 => expect_letter_step(c, 'u', State::Null2),
        State::Null2 => expect_letter_step(c, 'l', State::Null3),
        State::Null3 => expect_letter_step(c, 'l', State::NullEnd),
        State::NullEnd => expect_end_step(c, Lexeme::Null),
        State::StringEnd => if is_delimiter(c) {
            Step::Pass(State::Whitespace)
        } else {
            Step::Fail(Complaint::AfterString)
        },
    }
}

/// Words a complaint about the character `c`.
pub fn complain(k: Complaint, c: CharOrEof) -> (e: ParsingError)
    ensures
        e@ == ParsingErrorView::InvalidJson(complaint_text(k, c)),
{
    let got = c.debug_text();
    match k {
        Complaint::InvalidCharacter => ParsingError::invalid(
            "Invalid JSON character: ",
            got.as_str(),
        ),
        Complaint::DigitsOnly => ParsingError::invalid(
            "A number must contain only digits.  Got ",
            got.as_str(),
        ),
        Complaint::AfterZero => ParsingError::invalid(
            "A 0 must be followed by a '.' | a 'e'.  Got ",
            got.as_str(),
        ),
        Complaint::AfterMinus => ParsingError::invalid(
            "A - must be followed by a digit.  Got ",
            got.as_str(),
        ),
        Complaint::AfterExponent => ParsingError::invalid(
            "An e in a number must be followed by a '+', '-' | digit.  Got ",
            got.as_str(),
        ),
        Complaint::ExponentDigits => ParsingError::invalid(
            "A number exponent must consist only of digits.  Got ",
            got.as_str(),
        ),
        Complaint::ExponentMissing => ParsingError::InvalidJson(
            String::from_str("error parsing float: invalid float literal"),
        ),
        Complaint::FractionDigits => ParsingError::InvalidJson(
            String::from_str("A number must include only digits"),
        ),
        Complaint::FractionMissing => ParsingError::InvalidJson(
            String::from_str(
                "A number with a decimal point must be followed by a fractional part",
            ),
        ),
        Complaint::AfterString => ParsingError::invalid(
            "Expected whitespace | an operator after strin.  Got ",
            got.as_str(),
        ),
    }
}

/// The character at place `n` of the input, or the end of input where the
/// input is shorter.
pub open spec fn char_at(input: Seq<char>, n: nat) -> CharOrEof {
    if n < input.len() {
        CharOrEof::Char(input[n as int])
    } else {
        CharOrEof::Eof
    }
}

/// What the machine arrives at when it is run over the input.
pub enum Scan {
    /// A token. `used` characters of the input are spent on it, and the
    /// machine is left in `state`; `held` tells that the character after those
    /// was looked at already and is held back.
    Token { token: TokenView, used: nat, state: State, held: bool },
    /// The input ran out between tokens, after `used` characters.
    End { used: nat },
    /// A character out of place, with `at` characters before it; the machine
    /// stays in `state` with `collected` as the text of the token in progress.
    Fail { text: Seq<char>, at: nat, state: State, collected: Seq<char> },
}

/// The machine run from `state`, with `text` collected, over `input` from its
/// `n`th character on, until a token is complete, the input runs out or a
/// character is out of place.
pub open spec fn scan(state: State, text: Seq<char>, input: Seq<char>, n: nat) -> Scan
    decreases input.len() - n, (if state == State::StringEnd {
        1nat
    } else {
        0nat
    }),
{
    let c = char_at(input, n);
    match step(state, c) {
        Step::Skip(s) => if n < input.len() {
            scan(s, text, input, n + 1)
        } else {
            Scan::End { used: n }
        },
        Step::Keep(s) => if n < input.len() {
            scan(s, text.push(input[n as int]), input, n + 1)
        } else {
            Scan::End { used: n }
        },
        Step::Pass(s) => if state == State::StringEnd && s != State::StringEnd {
            scan(s, text, input, n)
        } else {
            Scan::End { used: n }
        },
        Step::Emit(lexeme, s, hold) => Scan::Token {
            token: lexeme_token(lexeme, text),
            used: if hold {
                n
            } else {
                n + 1
            },
            state: s,
            held: hold,
        },
        Step::Fail(k) => Scan::Fail {
            text: complaint_text(k, c),
            at: n,
            state,
            collected: text,
        },
    }
}

/// How many characters the machine looked at: those spent, the one held
/// back, and the end of input where it came to that.
pub open spec fn looked_at(sc: Scan) -> nat {
    match sc {
        Scan::Token { used, held, .. } => if held {
            used + 1
        } else {
            used
        },
        Scan::End { used } => used + 1,
        Scan::Fail { at, .. } => at + 1,
    }
}

/// How many times the source is asked for a character: once for each that
/// the machine looks at, but for one that was held back from before.
pub open spec fn source_reads(sc: Scan, held: Option<CharOrEof>) -> nat {
    if held is Some {
        (looked_at(sc) - 1) as nat
    } else {
        looked_at(sc)
    }
}

/// Whether the character is looked at again after this step.
pub open spec fn holds_back(st: Step, c: CharOrEof) -> bool {
    match st {
        Step::Pass(_) => true,
        Step::Emit(_, _, hold) => hold,
        Step::Fail(_) => false,
        _ => c is Eof,
    }
}

/// A string that is being handed out piece by piece.
#[verifier::ext_equal]
pub struct OpenString {
    /// Whether its closing quote has been read.
    pub completed: bool,
    /// How many times the source was asked for a character on its behalf.
    pub reads: i64,
}

/// What a tokenizer is, to its callers.
#[verifier::ext_equal]
pub struct Lexing {
    pub state: State,
    /// The text collected for the token in progress.
    pub text: Seq<char>,
    /// The input that is still to be processed: the character held back, then
    /// what the source has yet to hand out.
    pub ahead: Seq<char>,
    /// The character that was read and is held back to be looked at again;
    /// the end of input stays here once it is reached.
    pub held: Option<CharOrEof>,
    /// The place in the input of the character read last, counted from 0; it
    /// is -1 before the first. What was read for a string that is still open
    /// is added when the string is closed.
    pub position: i64,
    /// Whether strings are handed out to be read piece by piece.
    pub lazy: bool,
    /// The string that is being handed out piece by piece.
    pub open_string: Option<OpenString>,
}

/// What reading a raw token reports and leaves behind.
pub open spec fn scanned(l: Lexing) -> (Result<Option<TokenView>, ParsingErrorView>, Lexing) {
    let sc = scan(l.state, l.text, l.ahead, 0);
    let position = advanced(l.position, source_reads(sc, l.held));
    match sc {
        Scan::Token { token, used, state, held } => (
            Ok(Some(token)),
            Lexing {
                state,
                text: Seq::empty(),
                ahead: l.ahead.skip(used as int),
                held: if held {
                    Some(char_at(l.ahead, used))
                } else {
                    None
                },
                position,
                ..l
            },
        ),
        Scan::End { used } => (
            Ok(None),
            Lexing {
                state: State::Whitespace,
                text: Seq::empty(),
                ahead: Seq::empty(),
                held: Some(CharOrEof::Eof),
                position,
                ..l
            },
        ),
        Scan::Fail { text, at, state, collected } => (
            Err(ParsingErrorView::InvalidJson(text)),
            Lexing {
                state,
                text: collected,
                ahead: after_reads(l.ahead, at + 1),
                held: None,
                position,
                ..l
            },
        ),
    }
}

/// The contents of a string read to its closing quote, from right after the
/// opening one.
pub open spec fn string_body(input: Seq<char>) -> StringRead {
    read_contents(input, Seq::empty(), None, false, 0)
}

/// What closing the open string reports and leaves behind: the rest of the
/// string is read and dropped, and what was read for the string is added to
/// the position.
pub open spec fn drained(l: Lexing) -> (Result<(), ParsingErrorView>, Lexing) {
    match l.open_string {
        None => (Ok(()), l),
        Some(open) => if open.completed {
            (
                Ok(()),
                Lexing {
                    position: advanced(l.position, open.reads as nat),
                    open_string: None,
                    ..l
                },
            )
        } else {
            match string_body(l.ahead) {
                StringRead::Done { used, .. } => (
                    Ok(()),
                    Lexing {
                        ahead: after_reads(l.ahead, used),
                        position: advanced(l.position, advanced(open.reads, used) as nat),
                        open_string: None,
                        ..l
                    },
                ),
                StringRead::Fail { text, reads } => (
                    Err(ParsingErrorView::InvalidJson(text)),
                    Lexing {
                        ahead: after_reads(l.ahead, reads),
                        position: advanced(l.position, advanced(open.reads, reads) as nat),
                        open_string: None,
                        ..l
                    },
                ),
            }
        },
    }
}

/// What completing a raw token reports and leaves behind. Only a string
/// needs anything: it is read in full, or opened to be read piece by piece.
pub open spec fn materialized(l: Lexing, token: TokenView) -> (
    Result<TokenView, ParsingErrorView>,
    Lexing,
) {
    if token is String_ {
        if l.lazy {
            (
                Ok(TokenView::String_(None)),
                Lexing { open_string: Some(OpenString { completed: false, reads: 0 }), ..l },
            )
        } else {
            match string_body(l.ahead) {
                StringRead::Done { text, used, .. } => (
                    Ok(TokenView::String_(Some(text))),
                    Lexing {
                        ahead: after_reads(l.ahead, used),
                        position: advanced(l.position, advanced(0, used) as nat),
                        ..l
                    },
                ),
                StringRead::Fail { text, reads } => (
                    Err(ParsingErrorView::InvalidJson(text)),
                    Lexing {
                        ahead: after_reads(l.ahead, reads),
                        position: advanced(l.position, advanced(0, reads) as nat),
                        ..l
                    },
                ),
            }
        }
    } else {
        (Ok(token), l)
    }
}

/// What asking for the next token reports and leaves behind: a string that
/// is still open is closed, a raw token is read, and the token is completed.
pub open spec fn next(l: Lexing) -> (Result<Option<TokenView>, ParsingErrorView>, Lexing) {
    let (d, l1) = drained(l);
    match d {
        Err(e) => (Err(e), l1),
        Ok(_) => {
            let (s, l2) = scanned(l1);
            match s {
                Err(e) => (Err(e), l2),
                Ok(None) => (Ok(None), l2),
                Ok(Some(t)) => {
                    let (m, l3) = materialized(l2, t);
                    match m {
                        Err(e) => (Err(e), l3),
                        Ok(t) => (Ok(Some(t)), l3),
                    }
                },
            }
        },
    }
}

/// What reading a piece of the open string reports and leaves behind. A
/// piece is up to `limit` bytes' worth of text or, where a line is asked for,
/// the text up to and including the next line feed, whichever is shorter.
/// There is none where no string is open. Of a string that was read to its
/// end the piece is empty, and where a line is asked for there is none.
pub open spec fn string_piece(l: Lexing, limit: Option<usize>, line: bool) -> (
    Result<Option<Seq<char>>, ParsingErrorView>,
    Lexing,
) {
    match l.open_string {
        None => (Ok(None), l),
        Some(open) => if open.completed {
            (
                Ok(
                    if line {
                        None
                    } else {
                        Some(Seq::empty())
                    },
                ),
                l,
            )
        } else {
            match read_contents(l.ahead, Seq::empty(), limit, line, 0) {
                StringRead::Done { text, used, completed } => (
                    Ok(Some(text)),
                    Lexing {
                        ahead: after_reads(l.ahead, used),
                        open_string: Some(
                            OpenString { completed, reads: advanced(open.reads, used) },
                        ),
                        ..l
                    },
                ),
                StringRead::Fail { text, reads } => (
                    Err(ParsingErrorView::InvalidJson(text)),
                    Lexing {
                        ahead: after_reads(l.ahead, reads),
                        open_string: Some(
                            OpenString { completed: false, reads: advanced(open.reads, reads) },
                        ),
                        ..l
                    },
                ),
            }
        },
    }
}

/// The input has been read to its end and nothing is in progress.
pub open spec fn finished(l: Lexing) -> bool {
    &&& l.state == State::Whitespace
    &&& l.text == Seq::<char>::empty()
    &&& l.ahead == Seq::<char>::empty()
    &&& l.held == Some(CharOrEof::Eof)
    &&& l.open_string is None
}

/// Whether `r` is the token, the end or the error that was to be reported.
pub open spec fn reports(
    r: Result<Option<Token>, JsonStreamingError>,
    expected: Result<Option<TokenView>, ParsingErrorView>,
) -> bool {
    match expected {
        Ok(None) => r matches Ok(None),
        Ok(Some(token)) => r matches Ok(Some(t)) && t@ == token && t.wf(),
        Err(error) => r matches Err(JsonStreamingError::ParsingError(e)) && e@ == error,
    }
}

/// A string is reported right at its opening quote: nothing is held back,
/// and the machine waits for what follows the string.
pub proof fn lemma_scan_string(state: State, text: Seq<char>, input: Seq<char>, n: nat)
    ensures
        match scan(state, text, input, n) {
            Scan::Token { token, state: after, held, .. } => token is String_ ==> !held && after
                == State::StringEnd && token == TokenView::String_(None),
            _ => true,
        },
    decreases input.len() - n, (if state == State::StringEnd {
        1nat
    } else {
        0nat
    }),
{
    let c = char_at(input, n);
    match step(state, c) {
        Step::Skip(s) => {
            if n < input.len() {
                lemma_scan_string(s, text, input, n + 1);
            }
        },
        Step::Keep(s) => {
            if n < input.len() {
                lemma_scan_string(s, text.push(input[n as int]), input, n + 1);
            }
        },
        Step::Pass(s) => {
            if state == State::StringEnd && s != State::StringEnd {
                lemma_scan_string(s, text, input, n);
            }
        },
        _ => {},
    }
}

/// Once the end of input has been reported, asking again reports it again
/// and changes nothing.
pub proof fn lemma_end_is_final(l: Lexing)
    requires
        finished(l),
    ensures
        next(l) == (Ok::<Option<TokenView>, ParsingErrorView>(None), l),
{
    assert(scan(l.state, l.text, l.ahead, 0) == Scan::End { used: 0 });
}

/// The end of input is reported only when the input has been read to its end
/// and nothing is in progress.
pub proof fn lemma_end_is_finished(l: Lexing)
    requires
        next(l).0 == Ok::<Option<TokenView>, ParsingErrorView>(None),
    ensures
        finished(next(l).1),
{
}

/// A tokenizer for JSON, reading from the character source `S`.
///
/// It is pulled: each call of `next_token` reads as much input as the next
/// token needs. A number or a keyword is known to have ended only from the
/// character after it; that character is held back in a slot of its own and
/// looked at again first when the next token is asked for.
pub struct RustTokenizer<S: SuitableStream> {
    stream: S,
    strings_as_files: bool,
    token: String,
    state: State,
    index: i64,
    lookahead: Option<CharOrEof>,
    json_string_reader: Option<JsonStringReader>,
}

impl<S: SuitableStream> View for RustTokenizer<S> {
    type V = Lexing;

    closed spec fn view(&self) -> Lexing {
        Lexing {
            state: self.state,
            text: self.token@,
            ahead: match self.lookahead {
                Some(CharOrEof::Char(c)) => seq![c] + self.stream.pending(),
                _ => self.stream.pending(),
            },
            held: self.lookahead,
            position: self.index,
            lazy: self.strings_as_files,
            open_string: match self.json_string_reader {
                Some(reader) => Some(
                    OpenString { completed: reader.completed(), reads: reader.reads() },
                ),
                None => None,
            },
        }
    }
}

impl<S: SuitableStream> RustTokenizer<S> {
    /// The character source.
    pub closed spec fn source(&self) -> S {
        self.stream
    }

    /// The parts agree: the source is sound, the text collected is the
    /// beginning of a number as far as the state says, and a string is open
    /// only right behind its opening quote.
    pub closed spec fn wf(&self) -> bool {
        &&& self.stream.wf()
        &&& collected_fits(self.state, self.token@)
        &&& self.lookahead == Some(CharOrEof::Eof) ==> self.stream.pending().len() == 0
        &&& self.json_string_reader matches Some(reader) ==> {
            &&& reader.ready()
            &&& self.lookahead is None
            &&& self.state == State::StringEnd
            &&& self.strings_as_files
        }
    }

    /// What the source has yet to hand out is the input ahead, less the
    /// character held back.
    pub proof fn lemma_ahead(&self)
        ensures
            self@.ahead == match self@.held {
                Some(CharOrEof::Char(c)) => seq![c] + self.source().pending(),
                _ => self.source().pending(),
            },
    {
    }

    /// A tokenizer at the start of `stream`.
    pub fn new(stream: S, strings_as_files: bool) -> (r: Self)
        requires
            stream.wf(),
        ensures
            r.wf(),
            r.source() == stream,
            r@ == (Lexing {
                state: State::Whitespace,
                text: Seq::empty(),
                ahead: stream.pending(),
                held: None,
                position: -1i64,
                lazy: strings_as_files,
                open_string: None,
            }),
    {
        RustTokenizer {
            stream,
            strings_as_files,
            token: String::new(),
            state: State::Whitespace,
            index: -1,
            lookahead: None,
            json_string_reader: None,
        }
    }

    /// Gives the character source back.
    pub fn into_stream(self) -> (r: S)
        ensures
            r == self.source(),
    {
        self.stream
    }

    /// The place in the input of the character read last.
    pub fn index(&self) -> (r: i64)
        ensures
            r == self@.position,
    {
        self.index
    }

    /// Feeds one character to the machine.
    ///
    /// The character is consumed, or held back where it only ended a token.
    /// After an error the machine is where it was.
    pub fn process_char(&mut self, c: CharOrEof) -> (r: Result<Option<Token>, ParsingError>)
        requires
            collected_fits(old(self)@.state, old(self)@.text),
            old(self)@.held is None,
        ensures
            final(self).source() == old(self).source(),
            final(self)@.position == old(self)@.position,
            final(self)@.lazy == old(self)@.lazy,
            final(self)@.open_string == old(self)@.open_string,
            collected_fits(final(self)@.state, final(self)@.text),
            r matches Ok(Some(t)) ==> (t@ is Integer || t@ is Float ==> written_number(t@)),
            final(self)@.held == (if holds_back(step(old(self)@.state, c), c) {
                Some(c)
            } else {
                None
            }),
            match step(old(self)@.state, c) {
                Step::Skip(s) | Step::Pass(s) => {
                    &&& r matches Ok(None)
                    &&& final(self)@.state == s
                    &&& final(self)@.text == old(self)@.text
                },
                Step::Keep(s) => {
                    &&& r matches Ok(None)
                    &&& final(self)@.state == s
                    &&& c matches CharOrEof::Char(ch)
                    &&& final(self)@.text == old(self)@.text.push(ch)
                },
                Step::Emit(lexeme, s, _) => {
                    &&& r matches Ok(Some(t))
                    &&& t@ == lexeme_token(lexeme, old(self)@.text)
                    &&& t.wf()
                    &&& final(self)@.state == s
                    &&& final(self)@.text == Seq::<char>::empty()
                },
                Step::Fail(k) => {
                    &&& r matches Err(e)
                    &&& e@ == ParsingErrorView::InvalidJson(complaint_text(k, c))
                    &&& final(self)@.state == old(self)@.state
                    &&& final(self)@.text == old(self)@.text
                },
            },
    {
        match transition(self.state, c) {
            Step::Skip(next) => {
                self.state = next;
                if let CharOrEof::Eof = c {
                    self.lookahead = Some(c);
                }
                Ok(None)
            },
            Step::Keep(next) => {
                if let CharOrEof::Char(c_) = c {
                    proof {
                        lemma_kept(self.state, self.token@, c_, next);
                    }
                    self.token.push(c_);
                }
                self.state = next;
                Ok(None)
            },
            Step::Pass(next) => {
                self.state = next;
                self.lookahead = Some(c);
                Ok(None)
            },
            Step::Emit(lexeme, next, hold) => {
                proof {
                    lemma_written_number(self.state, self.token@, c);
                    if self.state == State::Integer {
                        lemma_integer_collected(self.token@);
                    }
                }
                let now_token = match lexeme {
                    Lexeme::Operator(c_) => Token::Operator(c_),
                    Lexeme::StringStart => Token::String_(None),
                    Lexeme::Zero => Token::Integer(AppropriateInt::Normal(0)),
                    Lexeme::Integer => match AppropriateInt::from_str(self.token.as_str()) {
                        Ok(parsed_num) => Token::Integer(parsed_num),
                        Err(ParseIntError::General(e)) => {
                            return Err(
                                ParsingError::invalid("Could not parse integer: ", e.as_str()),
                            );
                        },
                        Err(ParseIntError::TooLargeOrSmall) => {
                            return Err(
                                ParsingError::Limitation(
                                    String::from_str(
                                        "Incapable of parsing integer due to platform constraint",
                                    ),
                                ),
                            );
                        },
                    },
                    Lexeme::Float => Token::Float(self.token.clone()),
                    Lexeme::Boolean(b) => Token::Boolean(b),
                    Lexeme::Null => Token::Null,
                };
                self.token = String::new();
                self.state = next;
                if hold {
                    self.lookahead = Some(c);
                }
                Ok(Some(now_token))
            },
            Step::Fail(k) => Err(complain(k, c)),
        }
    }

    /// Reads on until the next token is complete.
    ///
    /// `Ok(None)` says that the input ended between tokens. Whitespace is
    /// skipped. A string is reported at its opening quote: its contents are
    /// still to be read from the source. The character that ends a number or a
    /// keyword is held back for the call that follows. Where the end of input
    /// is held back already, the source is not asked again.
    pub fn read_next_token(&mut self) -> (r: Result<Option<Token>, JsonStreamingError>)
        requires
            old(self).wf(),
            old(self)@.open_string is None,
        ensures
            old(self)@.held == Some(CharOrEof::Eof) ==> final(self).source() == old(self).source()
                && !io_failed(r),
            old(self).source().reliable() ==> !io_failed(r) && final(self).source().reliable(),
            r matches Ok(Some(t)) ==> (t@ is Integer || t@ is Float ==> written_number(t@)),
            io_failed(r) || {
                &&& final(self).wf()
                &&& reports(r, scanned(old(self)@).0)
                &&& final(self)@ == scanned(old(self)@).1
            },
    {
        let ghost input = self@.ahead;
        let ghost mut n: nat = 0;
        let ghost mut reads: nat = 0;
        proof {
            assert(input.skip(0) == input);
        }
        loop
            invariant
                input == old(self)@.ahead,
                self.stream.wf(),
                collected_fits(self.state, self.token@),
                self.lookahead == Some(CharOrEof::Eof) ==> self.stream.pending().len() == 0,
                self.json_string_reader is None,
                old(self).json_string_reader is None,
                self.strings_as_files == old(self).strings_as_files,
                n <= input.len(),
                self@.ahead == input.skip(n as int),
                self.lookahead is Some ==> self.lookahead == Some(char_at(input, n)),
                old(self).lookahead == Some(CharOrEof::Eof) ==> self.lookahead == Some(
                    CharOrEof::Eof,
                ) && self.stream == old(self).stream,
                old(self).stream.reliable() ==> self.stream.reliable(),
                scan(self.state, self.token@, input, n) == scan(
                    old(self).state,
                    old(self).token@,
                    input,
                    0,
                ),
                self.index == advanced(old(self).index, reads),
                reads + (if old(self).lookahead is Some {
                    1nat
                } else {
                    0nat
                }) == n + (if self.lookahead is Some {
                    1nat
                } else {
                    0nat
                }),
            decreases
                    input.len() - n,
                    (if self.state == State::StringEnd {
                        1nat
                    } else {
                        0nat
                    }),
        {
            let ghost pending = self.stream.pending();
            let c: CharOrEof = match self.lookahead.take() {
                Some(c) => {
                    proof {
                        if n < input.len() {
                            assert((seq![input[n as int]] + pending).skip(1) == pending);
                            assert(input.skip(n as int).skip(1) == input.skip(n as int + 1));
                        }
                    }
                    c
                },
                None => match self.stream.read_char() {
                    Ok(c) => {
                        self.index = advance(self.index);
                        proof {
                            lemma_advanced_twice(old(self).index, reads, 1);
                            reads = reads + 1;
                            if n < input.len() {
                                assert(input.skip(n as int).skip(1) == input.skip(n as int + 1));
                            }
                        }
                        CharOrEof::from(c)
                    },
                    Err(e) => {
                        return Err(JsonStreamingError::IOError(e));
                    },
                },
            };
            proof {
                assert(c == char_at(input, n));
                if n < input.len() {
                    assert(self.stream.pending() == input.skip(n as int + 1));
                } else {
                    assert(self.stream.pending() == Seq::<char>::empty());
                }
            }
            match self.process_char(c) {
                Err(e) => {
                    return Err(JsonStreamingError::ParsingError(e));
                },
                Ok(Some(now_token)) => {
                    proof {
                        if n < input.len() {
                            assert(seq![input[n as int]] + input.skip(n as int + 1) == input.skip(
                                n as int,
                            ));
                        }
                    }
                    return Ok(Some(now_token));
                },
                Ok(None) => {
                    if let CharOrEof::Eof = c {
                        proof {
                            assert(scan(State::Whitespace, self.token@, input, n) == Scan::End {
                                used: n,
                            });
                        }
                        return Ok(None);
                    }
                    proof {
                        if self.lookahead is None {
                            n = n + 1;
                        } else {
                            assert(seq![input[n as int]] + input.skip(n as int + 1) == input.skip(
                                n as int,
                            ));
                        }
                    }
                },
            }
        }
    }

    /// Closes the string that is still open, if there is one: what is left of
    /// it is read and dropped, and what was read for it is added to the
    /// position.
    pub fn finish_string(&mut self) -> (r: Result<(), JsonStreamingError>)
        requires
            old(self).wf(),
        ensures
            old(self)@.open_string is None ==> r is Ok && *final(self) == *old(self),
            old(self).source().reliable() ==> !io_failed(r) && final(self).source().reliable(),
            io_failed(r) || {
                &&& final(self).wf()
                &&& match drained(old(self)@).0 {
                    Ok(_) => r is Ok,
                    Err(error) => r matches Err(JsonStreamingError::ParsingError(e)) && e@
                        == error,
                }
                &&& final(self)@ == drained(old(self)@).1
            },
    {
        match self.json_string_reader.take() {
            None => Ok(()),
            Some(reader) => {
                let mut reader = reader;
                let read = reader.read(&mut self.stream, None);
                self.index = advance_by(self.index, reader.index());
                match read {
                    Ok(_) => Ok(()),
                    Err(e) => Err(e),
                }
            },
        }
    }

    /// Completes a raw token. Only a string needs anything: it is read in
    /// full, or, where strings are handed out piece by piece, opened for
    /// `parse_string_contents`.
    pub fn token_to_value(&mut self, tok: Token) -> (r: Result<Token, JsonStreamingError>)
        requires
            old(self).wf(),
            old(self)@.open_string is None,
            tok.wf(),
            tok is String_ ==> old(self)@.held is None && old(self)@.state == State::StringEnd,
        ensures
            old(self).source().reliable() ==> !io_failed(r) && final(self).source().reliable(),
            r matches Ok(t) ==> (tok is String_ <==> t is String_) && (!(tok is String_) ==> t@
                == tok@),
            io_failed(r) || {
                &&& final(self).wf()
                &&& match materialized(old(self)@, tok@).0 {
                    Ok(token) => r matches Ok(t) && t@ == token && t.wf(),
                    Err(error) => r matches Err(JsonStreamingError::ParsingError(e)) && e@
                        == error,
                }
                &&& final(self)@ == materialized(old(self)@, tok@).1
            },
    {
        match tok {
            Token::String_(_) => {
                let mut json_string_reader = JsonStringReader::new();
                if self.strings_as_files {
                    self.json_string_reader = Some(json_string_reader);
                    Ok(Token::String_(None))
                } else {
                    let read = json_string_reader.read(&mut self.stream, None);
                    self.index = advance_by(self.index, json_string_reader.index());
                    match read {
                        Ok(s) => Ok(Token::String_(Some(s))),
                        Err(e) => Err(e),
                    }
                }
            },
            other => Ok(other),
        }
    }

    /// The next token, or `None` at the end of input.
    ///
    /// A string that was handed out and not read to its end is closed first.
    /// Once the end of input has been reported it is reported again on every
    /// later call, and the source is not asked again. Over a source that is
    /// reliable the call never fails for want of input: it reports what the
    /// input holds.
    pub fn next_token(&mut self) -> (r: Result<Option<Token>, JsonStreamingError>)
        requires
            old(self).wf(),
        ensures
            old(self).source().reliable() ==> !io_failed(r) && final(self).source().reliable(),
            r matches Ok(Some(t)) ==> (t@ is Integer || t@ is Float ==> written_number(t@)),
            io_failed(r) || {
                &&& final(self).wf()
                &&& reports(r, next(old(self)@).0)
                &&& final(self)@ == next(old(self)@).1
            },
            finished(old(self)@) ==> {
                &&& r matches Ok(None)
                &&& final(self).wf()
                &&& final(self)@ == old(self)@
                &&& final(self).source() == old(self).source()
            },
            r matches Ok(None) ==> finished(final(self)@),
    {
        proof {
            if finished(self@) {
                lemma_end_is_final(self@);
            }
            let l1 = drained(self@).1;
            lemma_scan_string(l1.state, l1.text, l1.ahead, 0);
            if next(self@).0 == Ok::<Option<TokenView>, ParsingErrorView>(None) {
                lemma_end_is_finished(self@);
            }
        }
        match self.finish_string() {
            Err(e) => {
                return Err(e);
            },
            Ok(()) => {},
        }
        match self.read_next_token() {
            Err(e) => Err(e),
            Ok(None) => Ok(None),
            Ok(Some(tok)) => match self.token_to_value(tok) {
                Ok(t) => Ok(Some(t)),
                Err(e) => Err(e),
            },
        }
    }

    /// Reads a piece of the string that is open: up to `max_n_chars` bytes'
    /// worth, or all that is left of it. The result is `None` where no string
    /// is open, and empty once the string has been read to its end.
    pub fn parse_string_contents(&mut self, max_n_chars: Option<usize>) -> (r: Result<
        Option<String>,
        JsonStreamingError,
    >)
        requires
            old(self).wf(),
        ensures
            old(self).source().reliable() ==> !io_failed(r) && final(self).source().reliable(),
            io_failed(r) || {
                &&& final(self).wf()
                &&& match string_piece(old(self)@, max_n_chars, false).0 {
                    Ok(None) => r matches Ok(None),
                    Ok(Some(text)) => r matches Ok(Some(s)) && s@ == text,
                    Err(error) => r matches Err(JsonStreamingError::ParsingError(e)) && e@
                        == error,
                }
                &&& final(self)@ == string_piece(old(self)@, max_n_chars, false).1
            },
    {
        match self.json_string_reader.take() {
            None => Ok(None),
            Some(reader) => {
                let mut reader = reader;
                let read = reader.read_string_contents(&mut self.stream, max_n_chars);
                self.json_string_reader = Some(reader);
                match read {
                    Ok(s) => Ok(Some(s)),
                    Err(e) => Err(e),
                }
            },
        }
    }

    /// Reads a line of the string that is open: up to and including the next
    /// line feed, or up to `max_n_chars` bytes' worth. The result is `None`
    /// where no string is open and once the string has been read to its end.
    pub fn parse_string_line(&mut self, max_n_chars: Option<usize>) -> (r: Result<
        Option<String>,
        JsonStreamingError,
    >)
        requires
            old(self).wf(),
        ensures
            old(self).source().reliable() ==> !io_failed(r) && final(self).source().reliable(),
            io_failed(r) || {
                &&& final(self).wf()
                &&& match string_piece(old(self)@, max_n_chars, true).0 {
                    Ok(None) => r matches Ok(None),
                    Ok(Some(text)) => r matches Ok(Some(s)) && s@ == text,
                    Err(error) => r matches Err(JsonStreamingError::ParsingError(e)) && e@
                        == error,
                }
                &&& final(self)@ == string_piece(old(self)@, max_n_chars, true).1
            },
    {
        match self.json_string_reader.take() {
            None => Ok(None),
            Some(reader) => {
                let mut reader = reader;
                let read = reader.read_until_newline(&mut self.stream, max_n_chars);
                self.json_string_reader = Some(reader);
                read
            },
        }
    }

    /// The place in the input of the character read last, with what an open
    /// string has read counted in.
    pub fn position(&self) -> (r: i64)
        requires
            self.wf(),
        ensures
            r == match self@.open_string {
                Some(open) => advanced(self@.position, open.reads as nat),
                None => self@.position,
            },
    {
        match &self.json_string_reader {
            Some(reader) => advance_by(self.index, reader.index()),
            None => self.index,
        }
    }

    /// Rewinds the stream below to undo read-ahead.
    ///
    /// Reading in chunks leaves the stream's cursor at the end of the chunk
    /// read last. This puts it right behind the last character that the
    /// tokenizer has read, a character held back included, so that the stream
    /// can be read on from there by others. On a source that does not park
    /// nothing happens.
    pub fn park_cursor(&mut self) -> (r: Result<(), std::io::Error>)
        requires
            old(self).wf(),
        ensures
            old(self).source().reliable() ==> r is Ok && final(self).source().reliable(),
            r is Ok ==> {
                &&& final(self).wf()
                &&& final(self)@ == old(self)@
                &&& final(self).source().pending() == old(self).source().pending()
                &&& final(self).source().parks() == old(self).source().parks()
                &&& old(self).source().parks() ==> final(self).source().underlying()
                    == final(self).source().pending()
                &&& !old(self).source().parks() ==> final(self).source().underlying()
                    == old(self).source().underlying()
            },
    {
        self.stream.park_cursor()
    }

    /// The data that was read ahead from the stream below and not yet
    /// processed, as text or bytes after the kind of the stream.
    pub fn remainder(&self) -> (r: StreamData)
        ensures
            r@ == self.source().buffered(),
    {
        self.stream.remainder()
    }
}

} // verus!

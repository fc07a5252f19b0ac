//! The grammar of JSON tokens, and the proof that the tokenizer reads what
//! the grammar writes.
//!
//! The tokenizer is a machine that is fed characters. Here the tokens are
//! described by how they are spelled, and the machine is shown to arrive at
//! the token that is spelled at the front of its input, having spent exactly
//! its spelling.

use crate::char_or_eof::CharOrEof;
use crate::integer::{
    all_digits, digits_value, integer_text_value, is_digit, unsigned_part,
};
use crate::json_string_reader::{
    hex4, next_item, read_contents, scan_item, short_escape, string_step, StringItem,
    StringRead, StringState, StringStep,
};
use crate::error::ParsingErrorView;
use crate::tokenizer::{
    char_at, delimiter, drained, exponent_marker, lexeme_token, materialized, next, operator,
    scan, scanned, step, string_body, Lexing, Scan, State, Step, TokenView,
};
use crate::unicode_utils::{high_surrogate, low_surrogate, pair_char, surrogate};
use vstd::prelude::*;

verus! {

/// The outcome of a run of the machine, told from a place `by` characters
/// earlier in the input.
pub open spec fn shifted(sc: Scan, by: nat) -> Scan {
    match sc {
        Scan::Token { token, used, state, held } => Scan::Token {
            token,
            used: used + by,
            state,
            held,
        },
        Scan::End { used } => Scan::End { used: used + by },
        Scan::Fail { text, at, state, collected } => Scan::Fail {
            text,
            at: at + by,
            state,
            collected,
        },
    }
}

/// What the machine does from a place on depends on the input from that place
/// on alone.
pub proof fn lemma_scan_suffix(
    state: State,
    text: Seq<char>,
    before: Seq<char>,
    rest: Seq<char>,
    n: nat,
)
    ensures
        scan(state, text, before + rest, before.len() + n) == shifted(
            scan(state, text, rest, n),
            before.len(),
        ),
    decreases rest.len() - n, (if state == State::StringEnd {
        1nat
    } else {
        0nat
    }),
{
    let input = before + rest;
    let m = before.len() + n;
    assert(char_at(input, m) == char_at(rest, n)) by {
        if n < rest.len() {
            assert(input[m as int] == rest[n as int]);
        }
    }
    match step(state, char_at(rest, n)) {
        Step::Skip(s) => {
            if n < rest.len() {
                lemma_scan_suffix(s, text, before, rest, n + 1);
            }
        },
        Step::Keep(s) => {
            if n < rest.len() {
                assert(input[m as int] == rest[n as int]);
                lemma_scan_suffix(s, text.push(rest[n as int]), before, rest, n + 1);
            }
        },
        Step::Pass(s) => {
            if state == State::StringEnd && s != State::StringEnd {
                lemma_scan_suffix(s, text, before, rest, n);
            }
        },
        _ => {},
    }
}

/// A character that does nothing but separate tokens.
pub open spec fn blank(c: char) -> bool {
    step(State::Whitespace, CharOrEof::Char(c)) == Step::Skip(State::Whitespace)
}

pub open spec fn all_blank(s: Seq<char>) -> bool {
    forall|i: int| 0 <= i < s.len() ==> blank(#[trigger] s[i])
}

proof fn lemma_blank_run(input: Seq<char>, n: nat, k: nat)
    requires
        n + k <= input.len(),
        forall|i: int| n <= i < n + k ==> blank(#[trigger] input[i]),
    ensures
        scan(State::Whitespace, Seq::empty(), input, n) == scan(
            State::Whitespace,
            Seq::empty(),
            input,
            n + k,
        ),
    decreases k,
{
    if k > 0 {
        assert(blank(input[n as int]));
        lemma_blank_run(input, n + 1, (k - 1) as nat);
    }
}

/// Whitespace before a token changes nothing but the count of characters
/// spent.
pub proof fn lemma_blanks_are_skipped(blanks: Seq<char>, rest: Seq<char>)
    requires
        all_blank(blanks),
    ensures
        scan(State::Whitespace, Seq::empty(), blanks + rest, 0) == shifted(
            scan(State::Whitespace, Seq::empty(), rest, 0),
            blanks.len(),
        ),
{
    let input = blanks + rest;
    assert forall|i: int| 0 <= i < blanks.len() implies blank(#[trigger] input[i]) by {
        assert(input[i] == blanks[i]);
    }
    lemma_blank_run(input, 0, blanks.len());
    lemma_scan_suffix(State::Whitespace, Seq::empty(), blanks, rest, 0);
}

/// A structural character is a token by itself, whatever follows.
pub proof fn lemma_operator(c: char, rest: Seq<char>)
    requires
        operator(c),
    ensures
        scan(State::Whitespace, Seq::empty(), seq![c] + rest, 0) == (Scan::Token {
            token: TokenView::Operator(c),
            used: 1,
            state: State::Whitespace,
            held: false,
        }),
{
    assert((seq![c] + rest)[0] == c);
}

/// An opening quote is reported as a string whose contents are yet to be
/// read.
pub proof fn lemma_string_start(rest: Seq<char>)
    ensures
        scan(State::Whitespace, Seq::empty(), seq!['"'] + rest, 0) == (Scan::Token {
            token: TokenView::String_(None),
            used: 1,
            state: State::StringEnd,
            held: false,
        }),
{
    assert((seq!['"'] + rest)[0] == '"');
}

/// What follows ends a number or a keyword: a delimiter, or nothing.
pub open spec fn ends_token(rest: Seq<char>) -> bool {
    delimiter(char_at(rest, 0))
}

/// The three keywords and what they stand for.
pub open spec fn keyword(text: Seq<char>) -> Option<TokenView> {
    if text == seq!['t', 'r', 'u', 'e'] {
        Some(TokenView::Boolean(true))
    } else if text == seq!['f', 'a', 'l', 's', 'e'] {
        Some(TokenView::Boolean(false))
    } else if text == seq!['n', 'u', 'l', 'l'] {
        Some(TokenView::Null)
    } else {
        None
    }
}

/// A keyword that is followed by a delimiter or by nothing is read as what
/// it stands for. The delimiter is held back.
pub proof fn lemma_keyword(text: Seq<char>, rest: Seq<char>)
    requires
        keyword(text) is Some,
        ends_token(rest),
    ensures
        scan(State::Whitespace, Seq::empty(), text + rest, 0) == (Scan::Token {
            token: keyword(text)->0,
            used: text.len(),
            state: State::Whitespace,
            held: true,
        }),
{
    let input = text + rest;
    let none = Seq::<char>::empty();
    assert forall|i: int| 0 <= i < text.len() implies input[i] == text[i] by {}
    assert(char_at(input, text.len()) == char_at(rest, 0)) by {
        if rest.len() > 0 {
            assert(input[text.len() as int] == rest[0]);
        }
    }
    if text == seq!['t', 'r', 'u', 'e'] {
        assert(input[0] == 't' && input[1] == 'r' && input[2] == 'u' && input[3] == 'e');
        assert(scan(State::TrueEnd, none, input, 4) is Token);
        assert(scan(State::True3, none, input, 3) == scan(State::TrueEnd, none, input, 4));
        assert(scan(State::True2, none, input, 2) == scan(State::True3, none, input, 3));
        assert(scan(State::True1, none, input, 1) == scan(State::True2, none, input, 2));
        assert(scan(State::Whitespace, none, input, 0) == scan(State::True1, none, input, 1));
    } else if text == seq!['f', 'a', 'l', 's', 'e'] {
        assert(input[0] == 'f' && input[1] == 'a' && input[2] == 'l' && input[3] == 's'
            && input[4] == 'e');
        assert(scan(State::FalseEnd, none, input, 5) is Token);
        assert(scan(State::False4, none, input, 4) == scan(State::FalseEnd, none, input, 5));
        assert(scan(State::False3, none, input, 3) == scan(State::False4, none, input, 4));
        assert(scan(State::False2, none, input, 2) == scan(State::False3, none, input, 3));
        assert(scan(State::False1, none, input, 1) == scan(State::False2, none, input, 2));
        assert(scan(State::Whitespace, none, input, 0) == scan(State::False1, none, input, 1));
    } else {
        assert(input[0] == 'n' && input[1] == 'u' && input[2] == 'l' && input[3] == 'l');
        assert(scan(State::NullEnd, none, input, 4) is Token);
        assert(scan(State::Null3, none, input, 3) == scan(State::NullEnd, none, input, 4));
        assert(scan(State::Null2, none, input, 2) == scan(State::Null3, none, input, 3));
        assert(scan(State::Null1, none, input, 1) == scan(State::Null2, none, input, 2));
        assert(scan(State::Whitespace, none, input, 0) == scan(State::Null1, none, input, 1));
    }
}

/// The exponent of a number: the marker, a sign if there is one, and digits.
pub struct Exponent {
    pub marker: char,
    pub sign: Option<char>,
    pub digits: Seq<char>,
}

impl Exponent {
    pub open spec fn wf(self) -> bool {
        &&& exponent_marker(self.marker)
        &&& self.sign matches Some(s) ==> s == '+' || s == '-'
        &&& self.digits.len() > 0
        &&& all_digits(self.digits)
    }

    /// How the exponent is spelled.
    pub open spec fn text(self) -> Seq<char> {
        seq![self.marker] + (match self.sign {
            Some(s) => seq![s],
            None => Seq::empty(),
        }) + self.digits
    }
}

/// A number as the grammar of JSON builds it: a sign if it is negative, the
/// whole part, and then a fraction, an exponent, both or neither.
pub struct Number {
    pub negative: bool,
    pub whole: Seq<char>,
    pub fraction: Option<Seq<char>>,
    pub exponent: Option<Exponent>,
}

impl Number {
    /// The whole part is a single `0` or digits that do not begin with `0`;
    /// a fraction has a digit at least, and so has an exponent.
    pub open spec fn wf(self) -> bool {
        &&& self.whole.len() > 0
        &&& all_digits(self.whole)
        &&& self.whole.len() > 1 ==> self.whole[0] != '0'
        &&& self.fraction matches Some(f) ==> f.len() > 0 && all_digits(f)
        &&& self.exponent matches Some(e) ==> e.wf()
    }

    /// The sign and the whole part.
    pub open spec fn integer_text(self) -> Seq<char> {
        (if self.negative {
            seq!['-']
        } else {
            Seq::empty()
        }) + self.whole
    }

    /// The decimal point and the digits after it.
    pub open spec fn fraction_text(self) -> Seq<char> {
        match self.fraction {
            Some(f) => seq!['.'] + f,
            None => Seq::empty(),
        }
    }

    pub open spec fn exponent_text(self) -> Seq<char> {
        match self.exponent {
            Some(e) => e.text(),
            None => Seq::empty(),
        }
    }

    /// How the number is spelled.
    pub open spec fn text(self) -> Seq<char> {
        self.integer_text() + self.fraction_text() + self.exponent_text()
    }

    /// The token that the number is: an integer with its value where there is
    /// neither fraction nor exponent, and otherwise a float with its spelling.
    pub open spec fn token(self) -> TokenView {
        if self.fraction is None && self.exponent is None {
            TokenView::Integer(integer_text_value(self.text()))
        } else {
            TokenView::Float(self.text())
        }
    }
}

/// The text `part` stands in `input` from place `p` on.
pub open spec fn stands_at(input: Seq<char>, p: nat, part: Seq<char>) -> bool {
    p + part.len() <= input.len() && input.subrange(p as int, (p + part.len()) as int) == part
}

proof fn lemma_stands_at(input: Seq<char>, p: nat, part: Seq<char>, i: int)
    requires
        stands_at(input, p, part),
        0 <= i < part.len(),
    ensures
        input[p + i] == part[i],
{
    assert(input.subrange(p as int, (p + part.len()) as int)[i] == part[i]);
}

proof fn lemma_digit_run(state: State, text: Seq<char>, input: Seq<char>, n: nat, run: Seq<char>)
    requires
        state == State::Integer || state == State::FloatingPoint || state == State::IntegerExp,
        stands_at(input, n, run),
        all_digits(run),
    ensures
        scan(state, text, input, n) == scan(state, text + run, input, n + run.len()),
    decreases run.len(),
{
    if run.len() == 0 {
        assert(text + run == text);
    } else {
        lemma_stands_at(input, n, run, 0);
        assert(is_digit(run[0]));
        let tail = run.skip(1);
        assert(stands_at(input, n + 1, tail)) by {
            assert(input.subrange((n + 1) as int, (n + 1 + tail.len()) as int) == tail) by {
                assert forall|i: int| 0 <= i < tail.len() implies input[n + 1 + i] == tail[i] by {
                    lemma_stands_at(input, n, run, i + 1);
                }
            }
        }
        assert(all_digits(tail)) by {
            assert forall|i: int| 0 <= i < tail.len() implies is_digit(#[trigger] tail[i]) by {
                assert(tail[i] == run[i + 1]);
            }
        }
        lemma_digit_run(state, text.push(run[0]), input, n + 1, tail);
        assert(text.push(run[0]) + tail == text + run);
    }
}

/// A character that a number can go on with.
pub open spec fn number_char(c: char) -> bool {
    is_digit(c) || c == '.' || exponent_marker(c) || c == '+' || c == '-'
}

/// What follows ends a number: a delimiter that is not itself the next
/// character of a number, or nothing.
pub open spec fn ends_number(rest: Seq<char>) -> bool {
    ends_token(rest) && (rest.len() > 0 ==> !number_char(rest[0]))
}

/// The state in which the machine has read the whole part of a number.
pub open spec fn whole_state(whole: Seq<char>) -> State {
    if whole == seq!['0'] {
        State::Integer0
    } else {
        State::Integer
    }
}

proof fn lemma_tail_stands(input: Seq<char>, p: nat, part: Seq<char>, k: nat)
    requires
        stands_at(input, p, part),
        k <= part.len(),
    ensures
        stands_at(input, p + k, part.skip(k as int)),
{
    let tail = part.skip(k as int);
    assert(input.subrange((p + k) as int, (p + k + tail.len()) as int) == tail) by {
        assert forall|i: int| 0 <= i < tail.len() implies input[p + k + i] == tail[i] by {
            lemma_stands_at(input, p, part, i + k);
        }
    }
}

proof fn lemma_tail_digits(run: Seq<char>, k: nat)
    requires
        all_digits(run),
        k <= run.len(),
    ensures
        all_digits(run.skip(k as int)),
{
    let tail = run.skip(k as int);
    assert forall|i: int| 0 <= i < tail.len() implies is_digit(#[trigger] tail[i]) by {
        assert(tail[i] == run[i + k]);
    }
}

proof fn lemma_whole(input: Seq<char>, number: Number)
    requires
        number.wf(),
        stands_at(input, 0, number.integer_text()),
    ensures
        scan(State::Whitespace, Seq::empty(), input, 0) == scan(
            whole_state(number.whole),
            number.integer_text(),
            input,
            number.integer_text().len(),
        ),
{
    let none = Seq::<char>::empty();
    let whole = number.whole;
    let text = number.integer_text();
    let sign: Seq<char> = if number.negative {
        seq!['-']
    } else {
        Seq::empty()
    };
    let p = sign.len();
    let d = whole[0];
    assert(is_digit(d));
    lemma_stands_at(input, 0, text, p as int);
    assert(input[p as int] == d);
    let state = if number.negative {
        State::IntegerSign
    } else {
        State::Whitespace
    };
    assert(scan(State::Whitespace, none, input, 0) == scan(state, sign, input, p)) by {
        if number.negative {
            lemma_stands_at(input, 0, text, 0);
            assert(input[0] == '-');
            assert(none.push('-') == sign);
        }
    }
    assert(sign.push(d) + whole.skip(1) == text);
    if d == '0' {
        assert(whole == seq!['0']);
        assert(whole.skip(1) == Seq::<char>::empty());
        assert(sign.push(d) == text);
        assert(scan(state, sign, input, p) == scan(State::Integer0, sign.push(d), input, p + 1));
    } else {
        assert(whole != seq!['0']);
        assert(scan(state, sign, input, p) == scan(State::Integer, sign.push(d), input, p + 1));
        lemma_tail_stands(input, 0, text, p + 1);
        assert(text.skip((p + 1) as int) == whole.skip(1));
        lemma_tail_digits(whole, 1);
        lemma_digit_run(State::Integer, sign.push(d), input, p + 1, whole.skip(1));
    }
}

proof fn lemma_fraction(input: Seq<char>, state: State, text: Seq<char>, p: nat, f: Seq<char>)
    requires
        state == State::Integer0 || state == State::Integer,
        f.len() > 0,
        all_digits(f),
        stands_at(input, p, seq!['.'] + f),
    ensures
        scan(state, text, input, p) == scan(
            State::FloatingPoint,
            text + (seq!['.'] + f),
            input,
            p + 1 + f.len(),
        ),
{
    let part = seq!['.'] + f;
    lemma_stands_at(input, p, part, 0);
    lemma_stands_at(input, p, part, 1);
    assert(input[p as int] == '.');
    assert(input[(p + 1) as int] == f[0]);
    assert(is_digit(f[0]));
    assert(scan(state, text, input, p) == scan(
        State::FloatingPoint0,
        text.push('.'),
        input,
        p + 1,
    ));
    assert(scan(State::FloatingPoint0, text.push('.'), input, p + 1) == scan(
        State::FloatingPoint,
        text.push('.').push(f[0]),
        input,
        p + 2,
    ));
    lemma_tail_stands(input, p, part, 2);
    assert(part.skip(2) == f.skip(1));
    lemma_tail_digits(f, 1);
    lemma_digit_run(State::FloatingPoint, text.push('.').push(f[0]), input, p + 2, f.skip(1));
    assert(text.push('.').push(f[0]) + f.skip(1) == text + part);
}

proof fn lemma_exponent(input: Seq<char>, state: State, text: Seq<char>, p: nat, e: Exponent)
    requires
        state == State::Integer0 || state == State::Integer || state == State::FloatingPoint,
        e.wf(),
        stands_at(input, p, e.text()),
    ensures
        scan(state, text, input, p) == scan(
            State::IntegerExp,
            text + e.text(),
            input,
            p + e.text().len(),
        ),
{
    let part = e.text();
    let d = e.digits[0];
    assert(is_digit(d));
    lemma_stands_at(input, p, part, 0);
    assert(input[p as int] == e.marker);
    assert(scan(state, text, input, p) == scan(
        State::IntegerExp0,
        text.push(e.marker),
        input,
        p + 1,
    ));
    match e.sign {
        Some(s) => {
            lemma_stands_at(input, p, part, 1);
            lemma_stands_at(input, p, part, 2);
            assert(input[(p + 1) as int] == s);
            assert(input[(p + 2) as int] == d);
            assert(scan(State::IntegerExp0, text.push(e.marker), input, p + 1) == scan(
                State::IntegerExpSign,
                text.push(e.marker).push(s),
                input,
                p + 2,
            ));
            assert(scan(State::IntegerExpSign, text.push(e.marker).push(s), input, p + 2)
                == scan(State::IntegerExp, text.push(e.marker).push(s).push(d), input, p + 3));
            lemma_tail_stands(input, p, part, 3);
            assert(part.skip(3) == e.digits.skip(1));
            lemma_tail_digits(e.digits, 1);
            lemma_digit_run(
                State::IntegerExp,
                text.push(e.marker).push(s).push(d),
                input,
                p + 3,
                e.digits.skip(1),
            );
            assert(text.push(e.marker).push(s).push(d) + e.digits.skip(1) == text + part);
        },
        None => {
            lemma_stands_at(input, p, part, 1);
            assert(input[(p + 1) as int] == d);
            assert(scan(State::IntegerExp0, text.push(e.marker), input, p + 1) == scan(
                State::IntegerExp,
                text.push(e.marker).push(d),
                input,
                p + 2,
            ));
            lemma_tail_stands(input, p, part, 2);
            assert(part.skip(2) == e.digits.skip(1));
            lemma_tail_digits(e.digits, 1);
            lemma_digit_run(
                State::IntegerExp,
                text.push(e.marker).push(d),
                input,
                p + 2,
                e.digits.skip(1),
            );
            assert(text.push(e.marker).push(d) + e.digits.skip(1) == text + part);
        },
    }
}

/// A number that is followed by a delimiter or by nothing is read as the
/// token that it is: an integer with the value that its digits denote, or a
/// float with its spelling. Exactly its spelling is spent, and the delimiter
/// is held back.
pub proof fn lemma_number(number: Number, rest: Seq<char>)
    requires
        number.wf(),
        ends_number(rest),
    ensures
        scan(State::Whitespace, Seq::empty(), number.text() + rest, 0) == (Scan::Token {
            token: number.token(),
            used: number.text().len(),
            state: State::Whitespace,
            held: true,
        }),
{
    let text = number.text();
    let input = text + rest;
    let it = number.integer_text();
    let ft = number.fraction_text();
    let et = number.exponent_text();
    assert(stands_at(input, 0, text)) by {
        assert(input.subrange(0, text.len() as int) == text);
    }
    assert(stands_at(input, 0, it)) by {
        assert(input.subrange(0, it.len() as int) == it);
    }
    assert(stands_at(input, it.len(), ft)) by {
        assert(input.subrange(it.len() as int, (it.len() + ft.len()) as int) == ft);
    }
    assert(stands_at(input, it.len() + ft.len(), et)) by {
        assert(input.subrange(
            (it.len() + ft.len()) as int,
            (it.len() + ft.len() + et.len()) as int,
        ) == et);
    }
    let end = char_at(input, text.len());
    assert(end == char_at(rest, 0)) by {
        if rest.len() > 0 {
            assert(input[text.len() as int] == rest[0]);
        }
    }
    lemma_whole(input, number);
    let s1 = whole_state(number.whole);
    let (s2, t2) = match number.fraction {
        Some(f) => (State::FloatingPoint, it + ft),
        None => (s1, it),
    };
    assert(scan(s1, it, input, it.len()) == scan(s2, t2, input, it.len() + ft.len())) by {
        match number.fraction {
            Some(f) => {
                lemma_fraction(input, s1, it, it.len(), f);
            },
            None => {},
        }
    }
    let (s3, t3) = match number.exponent {
        Some(e) => (State::IntegerExp, t2 + et),
        None => (s2, t2),
    };
    assert(scan(s2, t2, input, it.len() + ft.len()) == scan(s3, t3, input, text.len())) by {
        match number.exponent {
            Some(e) => {
                lemma_exponent(input, s2, t2, it.len() + ft.len(), e);
            },
            None => {},
        }
    }
    assert(t3 == text);
    if number.fraction is None && number.exponent is None && s1 == State::Integer0 {
        assert(unsigned_part(text) == seq!['0']) by {
            if number.negative {
                assert(text == seq!['-', '0']);
                assert(text.skip(1) == seq!['0']);
            } else {
                assert(text == seq!['0']);
            }
        }
        assert(digits_value(seq!['0']) == 0) by {
            assert(seq!['0'].drop_last() == Seq::<char>::empty());
            reveal_with_fuel(digits_value, 2);
        }
    }
}

/// The outcome of a read, told from a place `by` characters earlier in the
/// input and with `out` read before.
pub open spec fn extended(r: StringRead, out: Seq<char>, by: nat) -> StringRead {
    match r {
        StringRead::Done { text, used, completed } => StringRead::Done {
            text: out + text,
            used: used + by,
            completed,
        },
        StringRead::Fail { text, reads } => StringRead::Fail { text, reads: reads + by },
    }
}

/// Reading a string on from a place depends on the input from that place on
/// alone; what was read before is put in front.
pub proof fn lemma_read_contents_suffix(input: Seq<char>, out: Seq<char>, n: nat)
    requires
        n <= input.len(),
    ensures
        read_contents(input, out, None, false, n) == extended(
            string_body(input.skip(n as int)),
            out,
            n,
        ),
    decreases input.len() - n,
{
    let rest = input.skip(n as int);
    assert(rest.skip(0) == rest);
    crate::json_string_reader::lemma_scan_item_bounds(
        StringState::String_,
        Seq::empty(),
        None,
        rest,
        0,
    );
    match next_item(rest) {
        StringItem::Char(ch, k) => {
            assert(rest.skip(k as int) == input.skip((n + k) as int));
            lemma_read_contents_suffix(input, out.push(ch), n + k);
            lemma_read_contents_suffix(rest, Seq::<char>::empty().push(ch), k);
            assert(out.push(ch) == out + Seq::<char>::empty().push(ch));
            let tail = string_body(input.skip((n + k) as int));
            match tail {
                StringRead::Done { text, used, completed } => {
                    assert(out.push(ch) + text == out + (Seq::<char>::empty().push(ch) + text));
                },
                _ => {},
            }
        },
        StringItem::End(k) => {
            assert(out + Seq::<char>::empty() == out);
        },
        _ => {},
    }
}

/// `code` is a way to write the character `c` within a string: wherever it
/// stands at the front of the input, `c` comes out and `code` is spent.
pub open spec fn item_spells(code: Seq<char>, c: char) -> bool {
    forall|rest: Seq<char>| #[trigger]
        next_item(code + rest) == StringItem::Char(c, code.len())
}

/// The input in which `body`, a closing quote and `rest` follow one another.
pub open spec fn closed(body: Seq<char>, rest: Seq<char>) -> Seq<char> {
    body + seq!['"'] + rest
}

/// `body` is a way to write the string `value` between quotes: wherever it
/// stands at the front of the input with a closing quote behind it, `value`
/// is read, and `body` and the quote are spent.
pub open spec fn string_spells(body: Seq<char>, value: Seq<char>) -> bool {
    forall|rest: Seq<char>| #[trigger]
        string_body(closed(body, rest)) == (StringRead::Done {
            text: value,
            used: body.len() + 1,
            completed: true,
        })
}

/// The empty string is written as nothing.
pub proof fn lemma_empty_string()
    ensures
        string_spells(Seq::empty(), Seq::empty()),
{
    assert forall|rest: Seq<char>| #[trigger]
        string_body(closed(Seq::empty(), rest)) == (StringRead::Done {
            text: Seq::<char>::empty(),
            used: 1,
            completed: true,
        }) by {
        let input = closed(Seq::empty(), rest);
        assert(input.skip(0) == input);
        assert(input[0] == '"');
    }
}

/// A string is written item by item: a way to write a character, followed by
/// a way to write a string, is a way to write the two together.
pub proof fn lemma_string_items(code: Seq<char>, c: char, body: Seq<char>, value: Seq<char>)
    requires
        item_spells(code, c),
        string_spells(body, value),
    ensures
        string_spells(code + body, seq![c] + value),
{
    assert forall|rest: Seq<char>| #[trigger]
        string_body(closed(code + body, rest)) == (StringRead::Done {
            text: seq![c] + value,
            used: (code + body).len() + 1,
            completed: true,
        }) by {
        let tail = closed(body, rest);
        let input = closed(code + body, rest);
        assert(input == code + tail);
        assert(input.skip(0) == input);
        assert(next_item(code + tail) == StringItem::Char(c, code.len()));
        assert(input.skip(code.len() as int) == tail);
        assert(string_body(closed(body, rest)) == (StringRead::Done {
            text: value,
            used: body.len() + 1,
            completed: true,
        }));
        lemma_read_contents_suffix(input, Seq::<char>::empty().push(c), code.len());
        assert(Seq::<char>::empty().push(c) == seq![c]);
    }
}

/// A character other than the quote and the backslash is written as itself.
pub proof fn lemma_plain_item(c: char)
    requires
        c != '"',
        c != '\\',
    ensures
        item_spells(seq![c], c),
{
    let code = seq![c];
    assert forall|rest: Seq<char>| #[trigger]
        next_item(code + rest) == StringItem::Char(c, 1) by {
        assert((code + rest)[0] == c);
    }
}

/// A backslash and the letter of a short escape write the character that the
/// escape stands for.
pub proof fn lemma_short_escape_item(letter: char)
    requires
        short_escape(letter) is Some,
    ensures
        item_spells(seq!['\\', letter], short_escape(letter)->0),
{
    let code = seq!['\\', letter];
    assert forall|rest: Seq<char>| #[trigger]
        next_item(code + rest) == StringItem::Char(short_escape(letter)->0, 2) by {
        let input = code + rest;
        assert(input[0] == '\\' && input[1] == letter);
        assert(scan_item(StringState::String_, Seq::empty(), None, input, 0) == scan_item(
            StringState::StringEscape,
            Seq::empty(),
            None,
            input,
            1,
        ));
    }
}

/// The six characters of a `\u` escape with the given four digits.
pub open spec fn unicode_escape(digits: Seq<char>) -> Seq<char> {
    seq!['\\', 'u'] + digits
}

proof fn lemma_unicode_digits(
    state: StringState,
    first: Option<u16>,
    input: Seq<char>,
    p: nat,
    digits: Seq<char>,
)
    requires
        state == StringState::Unicode || state == StringState::UnicodeSurrogate,
        digits.len() == 4,
        stands_at(input, p, digits),
    ensures
        scan_item(state, Seq::empty(), first, input, p) == match string_step(
            state,
            digits.take(3),
            first,
            CharOrEof::Char(digits[3]),
        ) {
            StringStep::Goto(s, d, f) => scan_item(s, d, f, input, p + 4),
            StringStep::Yield(CharOrEof::Char(ch)) => StringItem::Char(ch, p + 4),
            StringStep::Yield(CharOrEof::Eof) => StringItem::End(p + 4),
            StringStep::Fail(text) => StringItem::Fail(text, p + 4),
        },
{
    let none = Seq::<char>::empty();
    lemma_stands_at(input, p, digits, 0);
    lemma_stands_at(input, p, digits, 1);
    lemma_stands_at(input, p, digits, 2);
    lemma_stands_at(input, p, digits, 3);
    let d1 = none.push(digits[0]);
    let d2 = d1.push(digits[1]);
    let d3 = d2.push(digits[2]);
    assert(d3 == digits.take(3));
    assert(scan_item(state, none, first, input, p) == scan_item(state, d1, first, input, p + 1));
    assert(scan_item(state, d1, first, input, p + 1) == scan_item(
        state,
        d2,
        first,
        input,
        p + 2,
    ));
    assert(scan_item(state, d2, first, input, p + 2) == scan_item(
        state,
        d3,
        first,
        input,
        p + 3,
    ));
}

/// A `\u` escape whose four hexadecimal digits are the code of a character
/// writes that character.
pub proof fn lemma_unicode_item(digits: Seq<char>)
    requires
        hex4(digits) is Some,
        !surrogate(hex4(digits)->0),
    ensures
        item_spells(unicode_escape(digits), hex4(digits)->0 as char),
{
    let code = unicode_escape(digits);
    assert forall|rest: Seq<char>| #[trigger]
        next_item(code + rest) == StringItem::Char(hex4(digits)->0 as char, code.len()) by {
        let input = code + rest;
        assert(input[0] == '\\' && input[1] == 'u');
        assert(stands_at(input, 2, digits)) by {
            assert(input.subrange(2, 6) == digits);
        }
        assert(scan_item(StringState::String_, Seq::empty(), None, input, 0) == scan_item(
            StringState::StringEscape,
            Seq::empty(),
            None,
            input,
            1,
        ));
        assert(scan_item(StringState::StringEscape, Seq::empty(), None, input, 1) == scan_item(
            StringState::Unicode,
            Seq::empty(),
            None,
            input,
            2,
        ));
        lemma_unicode_digits(StringState::Unicode, None, input, 2, digits);
        assert(digits.take(3).push(digits[3]) == digits);
    }
}

/// Two `\u` escapes, the first with the code of a high surrogate and the
/// second with the code of a low one, write the one character that the pair
/// encodes in UTF-16.
pub proof fn lemma_surrogate_pair_item(high: Seq<char>, low: Seq<char>)
    requires
        hex4(high) is Some,
        hex4(low) is Some,
        high_surrogate(hex4(high)->0),
        low_surrogate(hex4(low)->0),
    ensures
        item_spells(
            unicode_escape(high) + unicode_escape(low),
            pair_char(hex4(high)->0, hex4(low)->0),
        ),
{
    let code = unicode_escape(high) + unicode_escape(low);
    let first = hex4(high)->0;
    assert forall|rest: Seq<char>| #[trigger]
        next_item(code + rest) == StringItem::Char(
            pair_char(hex4(high)->0, hex4(low)->0),
            code.len(),
        ) by {
        let input = code + rest;
        let none = Seq::<char>::empty();
        assert(input[0] == '\\' && input[1] == 'u' && input[6] == '\\' && input[7] == 'u');
        assert(stands_at(input, 2, high)) by {
            assert(input.subrange(2, 6) == high);
        }
        assert(stands_at(input, 8, low)) by {
            assert(input.subrange(8, 12) == low);
        }
        assert(scan_item(StringState::String_, none, None, input, 0) == scan_item(
            StringState::StringEscape,
            none,
            None,
            input,
            1,
        ));
        assert(scan_item(StringState::StringEscape, none, None, input, 1) == scan_item(
            StringState::Unicode,
            none,
            None,
            input,
            2,
        ));
        lemma_unicode_digits(StringState::Unicode, None, input, 2, high);
        assert(high.take(3).push(high[3]) == high);
        assert(scan_item(StringState::Unicode, none, None, input, 2) == scan_item(
            StringState::UnicodeSurrogateStart,
            none,
            Some(first),
            input,
            6,
        ));
        assert(scan_item(StringState::UnicodeSurrogateStart, none, Some(first), input, 6)
            == scan_item(StringState::UnicodeSurrogateStringEscape, none, Some(first), input, 7));
        assert(scan_item(StringState::UnicodeSurrogateStringEscape, none, Some(first), input, 7)
            == scan_item(StringState::UnicodeSurrogate, none, Some(first), input, 8));
        lemma_unicode_digits(StringState::UnicodeSurrogate, Some(first), input, 8, low);
        assert(low.take(3).push(low[3]) == low);
    }
}

/// A string without quotes and backslashes is written as itself.
pub proof fn lemma_plain_string(body: Seq<char>)
    requires
        forall|i: int| 0 <= i < body.len() ==> body[i] != '"' && body[i] != '\\',
    ensures
        string_spells(body, body),
    decreases body.len(),
{
    if body.len() == 0 {
        lemma_empty_string();
        assert(body == Seq::<char>::empty());
    } else {
        let tail = body.skip(1);
        lemma_plain_item(body[0]);
        lemma_plain_string(tail);
        lemma_string_items(seq![body[0]], body[0], tail, tail);
        assert(seq![body[0]] + tail == body);
    }
}

/// Input that ends within a string, before any closing quote, is an error
/// that is found at the end of the input: after every character has been
/// read, and the end after them.
pub proof fn lemma_unterminated_string(body: Seq<char>)
    requires
        forall|i: int| 0 <= i < body.len() ==> body[i] != '"' && body[i] != '\\',
    ensures
        string_body(body) == (StringRead::Fail {
            text: "Unterminated string at end of file"@,
            reads: body.len() + 1,
        }),
    decreases body.len(),
{
    assert(body.skip(0) == body);
    if body.len() > 0 {
        let tail = body.skip(1);
        lemma_unterminated_string(tail);
        lemma_read_contents_suffix(body, Seq::<char>::empty().push(body[0]), 1);
    }
}

/// A `\u` escape with the code of a surrogate that is followed by anything
/// but a backslash is an error: the surrogate has no partner.
pub proof fn lemma_unpaired_surrogate(digits: Seq<char>, c: char, rest: Seq<char>)
    requires
        hex4(digits) is Some,
        surrogate(hex4(digits)->0),
        c != '\\',
    ensures
        next_item(unicode_escape(digits) + seq![c] + rest) == StringItem::Fail(
            "Unpaired UTF-16 surrogate"@,
            7,
        ),
{
    let input = unicode_escape(digits) + seq![c] + rest;
    let none = Seq::<char>::empty();
    let first = hex4(digits)->0;
    assert(input[0] == '\\' && input[1] == 'u' && input[6] == c);
    assert(stands_at(input, 2, digits)) by {
        assert(input.subrange(2, 6) == digits);
    }
    assert(scan_item(StringState::String_, none, None, input, 0) == scan_item(
        StringState::StringEscape,
        none,
        None,
        input,
        1,
    ));
    assert(scan_item(StringState::StringEscape, none, None, input, 1) == scan_item(
        StringState::Unicode,
        none,
        None,
        input,
        2,
    ));
    lemma_unicode_digits(StringState::Unicode, None, input, 2, digits);
    assert(digits.take(3).push(digits[3]) == digits);
    assert(scan_item(StringState::Unicode, none, None, input, 2) == scan_item(
        StringState::UnicodeSurrogateStart,
        none,
        Some(first),
        input,
        6,
    ));
}

/// `0` and `-0` are the integer zero.
pub proof fn lemma_zero(negative: bool)
    ensures
        (Number { negative, whole: seq!['0'], fraction: None, exponent: None }).wf(),
        (Number { negative, whole: seq!['0'], fraction: None, exponent: None }).token()
            == TokenView::Integer(0),
{
    let number = Number { negative, whole: seq!['0'], fraction: None, exponent: None };
    let text = number.text();
    assert(unsigned_part(text) == seq!['0']) by {
        if negative {
            assert(text == seq!['-', '0']);
            assert(text.skip(1) == seq!['0']);
        } else {
            assert(text == seq!['0']);
        }
    }
    assert(digits_value(seq!['0']) == 0) by {
        assert(seq!['0'].drop_last() == Seq::<char>::empty());
        reveal_with_fuel(digits_value, 2);
    }
}

/// The states in which the machine is within a number.
pub open spec fn in_number(state: State) -> bool {
    match state {
        State::IntegerSign | State::Integer0 | State::Integer | State::FloatingPoint0
        | State::FloatingPoint | State::IntegerExp0 | State::IntegerExpSign
        | State::IntegerExp => true,
        _ => false,
    }
}

/// The number in progress with one more character, which the machine keeps
/// in the state given.
pub open spec fn grown(state: State, number: Number, c: char) -> Number {
    match state {
        State::Whitespace | State::IntegerSign => if c == '-' {
            Number { negative: true, ..number }
        } else {
            Number { whole: seq![c], ..number }
        },
        State::Integer0 | State::Integer | State::FloatingPoint0 | State::FloatingPoint => {
            if exponent_marker(c) {
                Number {
                    exponent: Some(Exponent { marker: c, sign: None, digits: Seq::empty() }),
                    ..number
                }
            } else if c == '.' {
                Number { fraction: Some(Seq::empty()), ..number }
            } else if number.fraction is Some {
                Number { fraction: Some(number.fraction->0.push(c)), ..number }
            } else {
                Number { whole: number.whole.push(c), ..number }
            }
        },
        State::IntegerExp0 | State::IntegerExpSign | State::IntegerExp => {
            if number.exponent is None {
                number
            } else if is_digit(c) {
                Number {
                    exponent: Some(
                        Exponent {
                            digits: number.exponent->0.digits.push(c),
                            ..number.exponent->0
                        },
                    ),
                    ..number
                }
            } else {
                Number {
                    exponent: Some(Exponent { sign: Some(c), ..number.exponent->0 }),
                    ..number
                }
            }
        },
        _ => number,
    }
}

/// The state that the machine is in when it has kept the characters of
/// `text` one after another, and the number that they are the beginning of.
pub open spec fn number_begun(text: Seq<char>) -> (State, Number)
    decreases text.len(),
{
    if text.len() == 0 {
        (
            State::Whitespace,
            Number { negative: false, whole: Seq::empty(), fraction: None, exponent: None },
        )
    } else {
        let (state, number) = number_begun(text.drop_last());
        match step(state, CharOrEof::Char(text.last())) {
            Step::Keep(next) => (next, grown(state, number, text.last())),
            _ => (state, number),
        }
    }
}

/// How far a number is built in each state of the machine.
pub open spec fn built(state: State, number: Number) -> bool {
    let whole_done = {
        &&& number.whole.len() > 0
        &&& all_digits(number.whole)
        &&& number.whole.len() > 1 ==> number.whole[0] != '0'
    };
    let fraction_done = number.fraction matches Some(f) ==> f.len() > 0 && all_digits(f);
    match state {
        State::Whitespace => {
            &&& !number.negative
            &&& number.whole.len() == 0
            &&& number.fraction is None
            &&& number.exponent is None
        },
        State::IntegerSign => {
            &&& number.negative
            &&& number.whole.len() == 0
            &&& number.fraction is None
            &&& number.exponent is None
        },
        State::Integer0 => {
            &&& number.whole == seq!['0']
            &&& number.fraction is None
            &&& number.exponent is None
        },
        State::Integer => {
            &&& whole_done
            &&& number.whole[0] != '0'
            &&& number.fraction is None
            &&& number.exponent is None
        },
        State::FloatingPoint0 => {
            &&& whole_done
            &&& number.fraction == Some(Seq::<char>::empty())
            &&& number.exponent is None
        },
        State::FloatingPoint => {
            &&& whole_done
            &&& number.fraction is Some
            &&& fraction_done
            &&& number.exponent is None
        },
        State::IntegerExp0 => {
            &&& whole_done
            &&& fraction_done
            &&& number.exponent matches Some(e)
            &&& exponent_marker(e.marker)
            &&& e.sign is None
            &&& e.digits.len() == 0
        },
        State::IntegerExpSign => {
            &&& whole_done
            &&& fraction_done
            &&& number.exponent matches Some(e)
            &&& exponent_marker(e.marker)
            &&& e.sign matches Some(s)
            &&& s == '+' || s == '-'
            &&& e.digits.len() == 0
        },
        State::IntegerExp => number.wf() && number.exponent is Some,
        _ => true,
    }
}

/// What the machine has collected fits the state that it is in: within a
/// number, the beginning of a number as far as the state says; otherwise
/// nothing.
pub open spec fn collected_fits(state: State, text: Seq<char>) -> bool {
    if in_number(state) {
        &&& number_begun(text).0 == state
        &&& number_begun(text).1.text() == text
        &&& built(state, number_begun(text).1)
    } else {
        text.len() == 0
    }
}

/// A token that is a number which the grammar writes.
pub open spec fn written_number(token: TokenView) -> bool {
    exists|number: Number| #[trigger] number.wf() && number.token() == token
}

/// A character that the machine keeps carries the number in progress on.
pub proof fn lemma_kept(state: State, text: Seq<char>, c: char, next: State)
    requires
        collected_fits(state, text),
        step(state, CharOrEof::Char(c)) == Step::Keep(next),
    ensures
        collected_fits(next, text.push(c)),
{
    let grown_text = text.push(c);
    assert(grown_text.drop_last() == text);
    assert(grown_text.last() == c);
    if text.len() == 0 {
        assert(number_begun(text).0 == State::Whitespace);
    }
    let number = number_begun(text).1;
    let after = grown(state, number, c);
    assert(number_begun(grown_text) == (next, after));
    assert(number.text() == text);
    let sign: Seq<char> = if number.negative {
        seq!['-']
    } else {
        Seq::empty()
    };
    match state {
        State::Whitespace | State::IntegerSign => {
            assert(number.text() == sign);
            if c == '-' {
                assert(after.text() == seq!['-']);
            } else {
                assert(after.text() == sign + seq![c]);
                assert(after.whole[0] == c);
            }
        },
        State::Integer0 | State::Integer => {
            assert(number.text() == sign + number.whole);
            if exponent_marker(c) {
                assert(after.text() == sign + number.whole + seq![c]);
            } else if c == '.' {
                assert(after.text() == sign + number.whole + seq!['.']);
            } else {
                assert(after.text() == sign + number.whole.push(c));
                assert(after.whole[0] == number.whole[0]);
            }
        },
        State::FloatingPoint0 | State::FloatingPoint => {
            let f = number.fraction->0;
            assert(number.text() == sign + number.whole + (seq!['.'] + f));
            if exponent_marker(c) {
                assert(after.text() == sign + number.whole + (seq!['.'] + f) + seq![c]);
            } else {
                assert(after.text() == sign + number.whole + (seq!['.'] + f.push(c)));
            }
        },
        State::IntegerExp0 | State::IntegerExpSign | State::IntegerExp => {
            let e = number.exponent->0;
            let mantissa = number.integer_text() + number.fraction_text();
            assert(number.text() == mantissa + e.text());
            let ae = after.exponent->0;
            assert(after.text() == mantissa + ae.text());
            assert(ae.text() == e.text().push(c));
        },
        _ => {},
    }
}

/// A number that the machine completes is one that the grammar writes.
pub proof fn lemma_written_number(state: State, text: Seq<char>, c: CharOrEof)
    requires
        collected_fits(state, text),
    ensures
        match step(state, c) {
            Step::Emit(lexeme, _, _) => {
                let token = lexeme_token(lexeme, text);
                token is Integer || token is Float ==> written_number(token)
            },
            _ => true,
        },
{
    match step(state, c) {
        Step::Emit(lexeme, s, hold) => {
            let number = number_begun(text).1;
            let token = lexeme_token(lexeme, text);
            if in_number(state) {
                assert(number.wf());
                if state == State::Integer0 {
                    lemma_zero(number.negative);
                    assert(number == Number {
                        negative: number.negative,
                        whole: seq!['0'],
                        fraction: None,
                        exponent: None,
                    });
                }
                assert(number.token() == token);
                assert(written_number(token));
            }
        },
        _ => {},
    }
}

/// What the machine has collected within the digits of an integer is an
/// integer in decimal, without a plus sign.
pub proof fn lemma_integer_collected(text: Seq<char>)
    requires
        collected_fits(State::Integer, text),
    ensures
        crate::integer::integer_text(text),
        text[0] != '+',
{
    let number = number_begun(text).1;
    assert(number.text() == number.integer_text()) by {
        assert(number.fraction_text() == Seq::<char>::empty());
        assert(number.exponent_text() == Seq::<char>::empty());
    }
    if number.negative {
        assert(text == seq!['-'] + number.whole);
        assert(text.skip(1) == number.whole);
        assert(text[0] == '-');
    } else {
        assert(text == number.whole);
        assert(text[0] == number.whole[0]);
        assert(is_digit(number.whole[0]));
    }
}

/// Every number that the machine reports is one that the grammar writes: an
/// integer whose value is what its digits denote, or a float whose text is
/// what the grammar spells.
pub proof fn lemma_numbers_are_written(state: State, text: Seq<char>, input: Seq<char>, n: nat)
    requires
        collected_fits(state, text),
    ensures
        match scan(state, text, input, n) {
            Scan::Token { token, .. } => token is Integer || token is Float ==> written_number(
                token,
            ),
            _ => true,
        },
    decreases input.len() - n, (if state == State::StringEnd {
        1nat
    } else {
        0nat
    }),
{
    let c = char_at(input, n);
    match step(state, c) {
        Step::Skip(s) => {
            if n < input.len() {
                lemma_numbers_are_written(s, text, input, n + 1);
            }
        },
        Step::Keep(s) => {
            if n < input.len() {
                lemma_kept(state, text, input[n as int], s);
                lemma_numbers_are_written(s, text.push(input[n as int]), input, n + 1);
            }
        },
        Step::Pass(s) => {
            if state == State::StringEnd && s != State::StringEnd {
                lemma_numbers_are_written(s, text, input, n);
            }
        },
        Step::Emit(lexeme, s, hold) => {
            lemma_written_number(state, text, c);
        },
        _ => {},
    }
}

/// Every number that the tokenizer reports is one that the grammar writes.
pub proof fn lemma_number_tokens_are_written(l: Lexing)
    requires
        collected_fits(l.state, l.text),
    ensures
        scanned(l).0 matches Ok(Some(token)) ==> (token is Integer || token is Float
            ==> written_number(token)),
{
    lemma_numbers_are_written(l.state, l.text, l.ahead, 0);
}

/// A token as it is written.
pub enum Word {
    /// One of the six structural characters.
    Operator(char),
    /// `true`, `false` or `null`.
    Keyword(Seq<char>),
    Number(Number),
    /// A string: what stands between its quotes, and the text that this
    /// writes.
    String_ { body: Seq<char>, value: Seq<char> },
}

impl Word {
    pub open spec fn wf(self) -> bool {
        match self {
            Word::Operator(c) => operator(c),
            Word::Keyword(text) => keyword(text) is Some,
            Word::Number(number) => number.wf(),
            Word::String_ { body, value } => string_spells(body, value),
        }
    }

    /// How the token is spelled.
    pub open spec fn text(self) -> Seq<char> {
        match self {
            Word::Operator(c) => seq![c],
            Word::Keyword(text) => text,
            Word::Number(number) => number.text(),
            Word::String_ { body, .. } => seq!['"'] + closed(body, Seq::empty()),
        }
    }

    /// The token that is written.
    pub open spec fn token(self) -> TokenView {
        match self {
            Word::Operator(c) => TokenView::Operator(c),
            Word::Keyword(text) => keyword(text)->0,
            Word::Number(number) => number.token(),
            Word::String_ { value, .. } => TokenView::String_(Some(value)),
        }
    }

    /// Whether `rest` may follow the token: anything after a structural
    /// character; after the others a delimiter or nothing, and after a number
    /// no character that a number could go on with.
    pub open spec fn may_precede(self, rest: Seq<char>) -> bool {
        match self {
            Word::Operator(_) => true,
            Word::Number(_) => ends_number(rest),
            _ => ends_token(rest),
        }
    }
}

/// A token with the whitespace before it.
pub struct Piece {
    pub blanks: Seq<char>,
    pub word: Word,
}

/// A text that is made of tokens: each with whitespace before it as one
/// likes, and whitespace at the end.
pub struct Document {
    pub pieces: Seq<Piece>,
    pub trailing: Seq<char>,
}

impl Document {
    /// The text from the `i`th token on.
    pub open spec fn text_from(self, i: nat) -> Seq<char>
        decreases self.pieces.len() - i,
    {
        if i >= self.pieces.len() {
            self.trailing
        } else {
            self.pieces[i as int].blanks + (self.pieces[i as int].word.text() + self.text_from(
                i + 1,
            ))
        }
    }

    /// From the `i`th token on, every token is well written and is followed
    /// by what may follow it.
    pub open spec fn wf_from(self, i: nat) -> bool
        decreases self.pieces.len() - i,
    {
        if i >= self.pieces.len() {
            all_blank(self.trailing)
        } else {
            &&& all_blank(self.pieces[i as int].blanks)
            &&& self.pieces[i as int].word.wf()
            &&& self.pieces[i as int].word.may_precede(self.text_from(i + 1))
            &&& self.wf_from(i + 1)
        }
    }

    /// The tokens from the `i`th on.
    pub open spec fn tokens_from(self, i: nat) -> Seq<TokenView>
        decreases self.pieces.len() - i,
    {
        if i >= self.pieces.len() {
            Seq::empty()
        } else {
            seq![self.pieces[i as int].word.token()] + self.tokens_from(i + 1)
        }
    }

    pub open spec fn wf(self) -> bool {
        self.wf_from(0)
    }

    /// The text of the document.
    pub open spec fn text(self) -> Seq<char> {
        self.text_from(0)
    }

    /// The tokens of the document, in order.
    pub open spec fn tokens(self) -> Seq<TokenView> {
        self.tokens_from(0)
    }
}

/// A tokenizer at the start of `text`, one that reads strings in full.
pub open spec fn at_start(text: Seq<char>) -> Lexing {
    Lexing {
        state: State::Whitespace,
        text: Seq::empty(),
        ahead: text,
        held: None,
        position: -1i64,
        lazy: false,
        open_string: None,
    }
}

/// The tokens that `count` calls for the next token report one after another,
/// and what the last of them leaves behind; `None` where one of the calls
/// reports an error or the end.
pub open spec fn token_run(l: Lexing, count: nat) -> Option<(Seq<TokenView>, Lexing)>
    decreases count,
{
    if count == 0 {
        Some((Seq::empty(), l))
    } else {
        match next(l) {
            (Ok(Some(token)), after) => match token_run(after, (count - 1) as nat) {
                Some((tokens, last)) => Some((seq![token] + tokens, last)),
                None => None,
            },
            _ => None,
        }
    }
}

/// The tokenizer stands between two tokens and reads strings in full.
pub open spec fn between_tokens(l: Lexing) -> bool {
    &&& l.state == State::Whitespace || (l.state == State::StringEnd && ends_token(l.ahead))
    &&& l.text == Seq::<char>::empty()
    &&& !l.lazy
    &&& l.open_string is None
}

proof fn lemma_after_string(input: Seq<char>)
    requires
        ends_token(input),
    ensures
        scan(State::StringEnd, Seq::empty(), input, 0) == scan(
            State::Whitespace,
            Seq::empty(),
            input,
            0,
        ),
{
}

proof fn lemma_word(word: Word, rest: Seq<char>)
    requires
        word.wf(),
        word.may_precede(rest),
    ensures
        match word {
            Word::String_ { body, .. } => scan(
                State::Whitespace,
                Seq::empty(),
                seq!['"'] + closed(body, rest),
                0,
            ) == (Scan::Token {
                token: TokenView::String_(None),
                used: 1,
                state: State::StringEnd,
                held: false,
            }),
            _ => scan(State::Whitespace, Seq::empty(), word.text() + rest, 0) == (Scan::Token {
                token: word.token(),
                used: word.text().len(),
                state: State::Whitespace,
                held: !(word is Operator),
            }),
        },
{
    match word {
        Word::Operator(c) => lemma_operator(c, rest),
        Word::Keyword(text) => lemma_keyword(text, rest),
        Word::Number(number) => lemma_number(number, rest),
        Word::String_ { body, .. } => lemma_string_start(closed(body, rest)),
    }
}

proof fn lemma_document_from(doc: Document, i: nat, l: Lexing)
    requires
        i <= doc.pieces.len(),
        doc.wf_from(i),
        between_tokens(l),
        l.ahead == doc.text_from(i),
    ensures
        token_run(l, (doc.pieces.len() - i) as nat) matches Some((tokens, last)) && tokens
            == doc.tokens_from(i) && next(last).0 == Ok::<Option<TokenView>, ParsingErrorView>(
            None,
        ),
    decreases doc.pieces.len() - i,
{
    let none = Seq::<char>::empty();
    assert(drained(l) == (Ok::<(), ParsingErrorView>(()), l));
    if l.state == State::StringEnd {
        lemma_after_string(l.ahead);
    }
    if i >= doc.pieces.len() {
        let blanks = doc.trailing;
        assert(blanks + none == blanks);
        lemma_blanks_are_skipped(blanks, none);
        assert(scan(State::Whitespace, none, none, 0) == Scan::End { used: 0 });
        assert(scan(l.state, l.text, l.ahead, 0) == Scan::End { used: blanks.len() });
    } else {
        let piece = doc.pieces[i as int];
        let word = piece.word;
        let blanks = piece.blanks;
        let rest = doc.text_from(i + 1);
        lemma_word(word, rest);
        match word {
            Word::String_ { body, value } => {
                let inside = closed(body, rest);
                let written = seq!['"'] + inside;
                assert(word.text() + rest == written);
                lemma_blanks_are_skipped(blanks, written);
                let sc = scan(l.state, l.text, l.ahead, 0);
                assert(sc == Scan::Token {
                    token: TokenView::String_(None),
                    used: blanks.len() + 1,
                    state: State::StringEnd,
                    held: false,
                });
                let l2 = scanned(l).1;
                assert(l2.ahead == inside) by {
                    assert(l.ahead.skip((blanks.len() + 1) as int) == inside);
                }
                assert(string_body(closed(body, rest)) == StringRead::Done {
                    text: value,
                    used: body.len() + 1,
                    completed: true,
                });
                let l3 = materialized(l2, TokenView::String_(None)).1;
                assert(l3.ahead == rest) by {
                    assert(inside.skip((body.len() + 1) as int) == rest);
                }
                assert(next(l) == (
                    Ok::<Option<TokenView>, ParsingErrorView>(Some(word.token())),
                    l3,
                ));
                lemma_document_from(doc, i + 1, l3);
            },
            _ => {
                let written = word.text() + rest;
                lemma_blanks_are_skipped(blanks, written);
                let sc = scan(l.state, l.text, l.ahead, 0);
                assert(sc == Scan::Token {
                    token: word.token(),
                    used: blanks.len() + word.text().len(),
                    state: State::Whitespace,
                    held: !(word is Operator),
                });
                let l2 = scanned(l).1;
                assert(l2.ahead == rest) by {
                    assert(l.ahead.skip((blanks.len() + word.text().len()) as int) == rest);
                }
                assert(!(word.token() is String_));
                assert(materialized(l2, word.token()) == (
                    Ok::<TokenView, ParsingErrorView>(word.token()),
                    l2,
                ));
                assert(next(l) == (
                    Ok::<Option<TokenView>, ParsingErrorView>(Some(word.token())),
                    l2,
                ));
                lemma_document_from(doc, i + 1, l2);
            },
        }
    }
}

/// A text that is made of tokens is read as those tokens, one per call and in
/// order, and then the end of input is reported.
///
/// This holds of every text that the grammar of tokens writes: structural
/// characters, keywords, numbers and strings, with whitespace between them as
/// one likes, provided that each keyword, number and string is followed by a
/// delimiter or by nothing.
pub proof fn lemma_document(doc: Document)
    requires
        doc.wf(),
    ensures
        token_run(at_start(doc.text()), doc.pieces.len()) matches Some((tokens, last))
            && tokens == doc.tokens() && next(last).0 == Ok::<
            Option<TokenView>,
            ParsingErrorView,
        >(None),
{
    lemma_document_from(doc, 0, at_start(doc.text()));
}

} // verus!

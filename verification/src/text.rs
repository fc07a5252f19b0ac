//! Small pieces of text handling that the messages and the lexers share,
//! together with the contracts assumed of the std items they rest on.

use vstd::prelude::*;
use vstd::std_specs::iter::IteratorSpec;

verus! {

/// Whether `c` has the Unicode property White_Space, as `char::is_whitespace`
/// decides it.
pub uninterp spec fn unicode_whitespace(c: char) -> bool;

/// The text that `{:?}` renders for a character: the character between single
/// quotes, escaped where std escapes it.
pub uninterp spec fn char_debug_text(c: char) -> Seq<char>;

/// `char::is_whitespace`: the result is a function of the character alone.
pub assume_specification[ char::is_whitespace ](c: char) -> (r: bool)
    ensures
        r == unicode_whitespace(c),
;

/// `String::push` appends one character.
pub assume_specification[ String::push ](s: &mut String, c: char)
    ensures
        final(s)@ == old(s)@.push(c),
;

/// `char::from_u32` accepts exactly the Unicode scalar values: every code
/// point up to 0x10FFFF that is not a surrogate.
pub assume_specification[ char::from_u32 ](i: u32) -> (r: Option<char>)
    ensures
        is_scalar_value(i) ==> r == Some(i as char),
        !is_scalar_value(i) ==> r is None,
;

/// Calls std's `Debug` formatting of a `char`.
#[verifier::external_body]
pub(crate) fn debug_char(c: char) -> (s: String)
    ensures
        s@ == char_debug_text(c),
{
    format!("{:?}", c)
}

/// The code points that are characters: all up to 0x10FFFF but the surrogates.
pub open spec fn is_scalar_value(i: u32) -> bool {
    i <= 0xD7FF || 0xE000 <= i <= 0x10FFFF
}

/// The lower-case hexadecimal digit for a value below 16.
pub open spec fn hex_digit_char(d: nat) -> char
    recommends
        d < 16,
{
    if d < 10 {
        (('0' as nat) + d) as char
    } else {
        (('a' as nat) + d - 10) as char
    }
}

/// A number in lower-case hexadecimal, without leading zeros.
pub open spec fn lower_hex(n: nat) -> Seq<char>
    decreases n,
{
    if n < 16 {
        seq![hex_digit_char(n)]
    } else {
        lower_hex(n / 16).push(hex_digit_char(n % 16))
    }
}

/// The value of a hexadecimal digit of either case, if `c` is one.
pub open spec fn hex_value(c: char) -> Option<nat> {
    if '0' <= c <= '9' {
        Some((c as nat - '0' as nat) as nat)
    } else if 'a' <= c <= 'f' {
        Some((c as nat - 'a' as nat + 10) as nat)
    } else if 'A' <= c <= 'F' {
        Some((c as nat - 'A' as nat + 10) as nat)
    } else {
        None
    }
}

fn hex_digit(d: u8) -> (c: char)
    requires
        d < 16,
    ensures
        c == hex_digit_char(d as nat),
{
    if d < 10 {
        (48u8 + d) as char
    } else {
        (97u8 + (d - 10)) as char
    }
}

/// Appends `v` in lower-case hexadecimal, without leading zeros.
pub fn push_lower_hex(s: &mut String, v: u16)
    ensures
        final(s)@ == old(s)@ + lower_hex(v as nat),
    decreases v,
{
    if v >= 16 {
        push_lower_hex(s, v / 16);
    }
    s.push(hex_digit((v % 16) as u8));
}

/// The value of `c` as a hexadecimal digit of either case.
pub fn hex_digit_value(c: char) -> (r: Option<u8>)
    ensures
        r is Some <==> hex_value(c) is Some,
        r matches Some(d) ==> d < 16 && hex_value(c) == Some(d as nat),
{
    if '0' <= c && c <= '9' {
        Some((c as u32 - '0' as u32) as u8)
    } else if 'a' <= c && c <= 'f' {
        Some((c as u32 - 'a' as u32 + 10) as u8)
    } else if 'A' <= c && c <= 'F' {
        Some((c as u32 - 'A' as u32 + 10) as u8)
    } else {
        None
    }
}


/// A position counter moved on by `by`; it stops at the largest value that it
/// can hold.
pub open spec fn advanced(index: i64, by: nat) -> i64 {
    if index + by > i64::MAX {
        i64::MAX
    } else {
        (index + by) as i64
    }
}

/// Moves a position counter on by one.
pub fn advance(index: i64) -> (r: i64)
    ensures
        r == advanced(index, 1),
{
    if index < i64::MAX {
        index + 1
    } else {
        index
    }
}

/// Moves a position counter on by `by`.
pub fn advance_by(index: i64, by: i64) -> (r: i64)
    requires
        by >= 0,
    ensures
        r == advanced(index, by as nat),
{
    match index.checked_add(by) {
        Some(r) => r,
        None => i64::MAX,
    }
}

/// Moving on in two steps is moving on by their sum.
pub proof fn lemma_advanced_twice(index: i64, a: nat, b: nat)
    ensures
        advanced(advanced(index, a), b) == advanced(index, a + b),
{
}

/// How many bytes the text takes up in UTF-8.
pub open spec fn utf8_len(s: Seq<char>) -> usize {
    vstd::utf8::encode_utf8(s).len() as usize
}

/// The characters of `s`, in order.
pub fn chars_of(s: &str) -> (v: Vec<char>)
    ensures
        v@ == s@,
{
    let mut it = s.chars();
    let mut v: Vec<char> = Vec::new();
    loop
        invariant
            it.obeys_prophetic_iter_laws(),
            it.decrease() is Some,
            v@ + it.remaining() == s@,
        ensures
            v@ == s@,
        decreases it.decrease()->0,
    {
        match it.next() {
            Some(c) => {
                v.push(c);
            },
            None => {
                break ;
            },
        }
    }
    v
}

} // verus!

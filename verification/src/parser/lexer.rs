//! The scanner: the lexical rules in executable form.

use vstd::prelude::*;
use vstd::string::StringSliceAdditionalSpecFns;
use vstd::utf8::{
    decode_utf8, encode_utf8, encode_utf8_decode_utf8, encode_utf8_valid_utf8, is_ascii_chars,
    is_ascii_chars_encode_utf8, is_char_boundary, is_char_boundary_iff_not_is_continuation_byte,
    pop_first_scalar, valid_utf8,
};

use crate::parser::error::{SyntaxError, SyntaxErrorKind};
use crate::parser::grammar::{span, violation};
use crate::parser::lexical::{
    ascii_text, digits_len, digits_value, ident_len, is_digit, is_ident_continue,
    is_ident_start, token_start, whitespace_len, whitespace_run, ZERO,
};
use crate::text::{decimal, digit_char};
use crate::syntax::span::Span;

verus! {

/// A run of white space ends inside the text.
pub proof fn lemma_token_start_bounds(s: Seq<u8>, i: int)
    requires
        0 <= i <= s.len(),
    ensures
        i <= token_start(s, i) <= s.len(),
        whitespace_len(s, token_start(s, i)) == 0,
        token_start(s, token_start(s, i)) == token_start(s, i),
    decreases s.len() - i,
{
    reveal(whitespace_run);
    let n = whitespace_len(s, i);
    if n > 0 {
        lemma_token_start_bounds(s, i + n);
    }
}

/// A run of identifier bytes ends inside the text, and holds nothing else.
pub proof fn lemma_ident_len_bounds(s: Seq<u8>, i: int)
    requires
        0 <= i <= s.len(),
    ensures
        i + ident_len(s, i) <= s.len(),
        forall|k: int| i <= k < i + ident_len(s, i) ==> is_ident_continue(#[trigger] s[k]),
        i + ident_len(s, i) < s.len() ==> !is_ident_continue(s[i + ident_len(s, i)]),
    decreases s.len() - i,
{
    if i < s.len() && is_ident_continue(s[i]) {
        lemma_ident_len_bounds(s, i + 1);
    }
}

/// A run of digits ends inside the text, and holds nothing else.
pub proof fn lemma_digits_len_bounds(s: Seq<u8>, i: int)
    requires
        0 <= i <= s.len(),
    ensures
        i + digits_len(s, i) <= s.len(),
        forall|k: int| i <= k < i + digits_len(s, i) ==> is_digit(#[trigger] s[k]),
        i + digits_len(s, i) < s.len() ==> !is_digit(s[i + digits_len(s, i)]),
    decreases s.len() - i,
{
    if i < s.len() && is_digit(s[i]) {
        lemma_digits_len_bounds(s, i + 1);
    }
}

/// Where no white space starts at `i`, the next token starts at `i`.
pub proof fn lemma_token_starts_here(s: Seq<u8>, i: int)
    requires
        whitespace_len(s, i) == 0,
    ensures
        token_start(s, i) == i,
{
    reveal(whitespace_run);
}

/// Where one white-space character of `n` bytes starts at `i`, the next
/// token starts where it starts after that character.
pub proof fn lemma_token_starts_after(s: Seq<u8>, i: int, n: nat)
    requires
        n > 0,
        whitespace_len(s, i) == n,
    ensures
        token_start(s, i) == token_start(s, i + n),
{
    reveal(whitespace_run);
}

/// A run of exactly `n` digits from `i` on has the length `n`.
pub proof fn lemma_digits_run(s: Seq<u8>, i: int, n: nat)
    requires
        0 <= i,
        i + n <= s.len(),
        forall|k: int| i <= k < i + n ==> is_digit(#[trigger] s[k]),
        i + n == s.len() || !is_digit(s[i + n]),
    ensures
        digits_len(s, i) == n,
    decreases n,
{
    if n > 0 {
        assert(is_digit(s[i]));
        lemma_digits_run(s, i + 1, (n - 1) as nat);
    }
}

/// Digits that start with another digit than `0` spell a positive number.
pub proof fn lemma_digits_value_positive(digits: Seq<u8>)
    requires
        digits.len() > 0,
        forall|k: int| 0 <= k < digits.len() ==> is_digit(#[trigger] digits[k]),
        digits[0] != ZERO,
    ensures
        digits_value(digits) >= 1,
    decreases digits.len(),
{
    if digits.len() > 1 {
        let prefix = digits.drop_last();
        assert(prefix[0] == digits[0]);
        assert forall|k: int| 0 <= k < prefix.len() implies is_digit(#[trigger] prefix[k]) by {
            assert(prefix[k] == digits[k]);
        }
        lemma_digits_value_positive(prefix);
    } else {
        assert(digits.drop_last().len() == 0);
        assert(digits_value(digits.drop_last()) == 0);
        assert(is_digit(digits[0]));
        assert(digits.last() == digits[0]);
    }
}

/// A numeral without a leading zero is the numeral of the number that it
/// spells: writing that number in base ten gives the same digits back.
pub proof fn lemma_canonical_numeral(digits: Seq<u8>)
    requires
        digits.len() > 0,
        forall|k: int| 0 <= k < digits.len() ==> is_digit(#[trigger] digits[k]),
        digits.len() == 1 || digits[0] != ZERO,
    ensures
        decimal(digits_value(digits)) == ascii_text(digits),
    decreases digits.len(),
{
    let prefix = digits.drop_last();
    let d = (digits.last() - ZERO) as nat;
    assert(is_digit(digits[digits.len() - 1]));
    assert(digit_char(d) == digits.last() as char);
    if digits.len() == 1 {
        assert(prefix.len() == 0);
        assert(digits_value(prefix) == 0);
        assert(decimal(d) =~= ascii_text(digits));
    } else {
        assert(prefix[0] == digits[0]);
        assert forall|k: int| 0 <= k < prefix.len() implies is_digit(#[trigger] prefix[k]) by {
            assert(prefix[k] == digits[k]);
        }
        lemma_digits_value_positive(prefix);
        lemma_canonical_numeral(prefix);
        let v = digits_value(prefix);
        assert((10 * v + d) / 10 == v && (10 * v + d) % 10 == d) by (nonlinear_arith)
            requires
                d < 10,
        ;
        assert(decimal(10 * v + d) == decimal(v).push(digit_char(d)));
        assert(ascii_text(prefix).push(digits.last() as char) =~= ascii_text(digits));
    }
}

/// Tells whether `b` is an ASCII digit.
pub fn digit(b: u8) -> (yes: bool)
    ensures
        yes == is_digit(b),
{
    0x30 <= b && b <= 0x39
}

/// Tells whether `b` may start an identifier.
pub fn ident_start(b: u8) -> (yes: bool)
    ensures
        yes == is_ident_start(b),
{
    (0x61 <= b && b <= 0x7a) || (0x41 <= b && b <= 0x5a) || b == 0x5f
}

/// Tells whether `b` may stand inside an identifier.
pub fn ident_continue(b: u8) -> (yes: bool)
    ensures
        yes == is_ident_continue(b),
{
    ident_start(b) || digit(b)
}

/// The length of the white-space character at `i`, zero where none starts.
pub fn whitespace_at(bytes: &[u8], i: usize) -> (n: usize)
    ensures
        n == whitespace_len(bytes@, i as int),
{
    let len = bytes.len();
    if i >= len {
        return 0;
    }
    let b0 = bytes[i];
    if b0 == 0x20 || (0x09 <= b0 && b0 <= 0x0d) {
        1
    } else if len - i > 1 && b0 == 0xc2 && (bytes[i + 1] == 0x85 || bytes[i + 1] == 0xa0) {
        2
    } else if len - i > 2 {
        let b1 = bytes[i + 1];
        let b2 = bytes[i + 2];
        let wide = (b0 == 0xe1 && b1 == 0x9a && b2 == 0x80) || (b0 == 0xe2 && b1 == 0x80 && ((0x80
            <= b2 && b2 <= 0x8a) || b2 == 0xa8 || b2 == 0xa9 || b2 == 0xaf)) || (b0 == 0xe2 && b1
            == 0x81 && b2 == 0x9f) || (b0 == 0xe3 && b1 == 0x80 && b2 == 0x80);
        if wide {
            3
        } else {
            0
        }
    } else {
        0
    }
}

/// The position of the first byte at or after `i` that is not white space.
pub fn skip_whitespace(bytes: &[u8], i: usize) -> (at: usize)
    requires
        i <= bytes@.len(),
    ensures
        at == token_start(bytes@, i as int),
        i <= at <= bytes@.len(),
{
    let len = bytes.len();
    let mut at = i;
    loop
        invariant
            len == bytes@.len(),
            i <= at <= bytes@.len(),
            token_start(bytes@, at as int) == token_start(bytes@, i as int),
        ensures
            at == token_start(bytes@, i as int),
        decreases bytes@.len() - at,
    {
        reveal(whitespace_run);
        let n = whitespace_at(bytes, at);
        if n == 0 {
            break;
        }
        at = at + n;
    }
    at
}

/// The position after the identifier bytes that start at `i`.
pub fn scan_ident(bytes: &[u8], i: usize) -> (end: usize)
    requires
        i <= bytes@.len(),
    ensures
        end == i + ident_len(bytes@, i as int),
        i <= end <= bytes@.len(),
{
    let mut end = i;
    while end < bytes.len() && ident_continue(bytes[end])
        invariant
            i <= end <= bytes@.len(),
            end + ident_len(bytes@, end as int) == i + ident_len(bytes@, i as int),
        decreases bytes@.len() - end,
    {
        end = end + 1;
    }
    end
}

/// The violation `kind`, found at the character that starts at `at`.
pub fn found(kind: SyntaxErrorKind, bytes: &[u8], at: usize) -> (e: SyntaxError)
    requires
        at <= bytes@.len(),
    ensures
        e == violation(kind, bytes@, at as int),
        e.span.within(bytes@.len()),
{
    reveal(violation);
    let len = bytes.len();
    if at >= len {
        return SyntaxError { kind, span: Span::new(at, at) };
    }
    let b = bytes[at];
    let n: usize = if b < 0xc0 {
        1
    } else if b < 0xe0 {
        2
    } else if b < 0xf0 {
        3
    } else {
        4
    };
    let end = if len - at >= n {
        at + n
    } else {
        len
    };
    SyntaxError { kind, span: Span::new(at, end) }
}

/// In valid UTF-8, a position after nothing but ASCII bytes is a character
/// boundary.
proof fn lemma_ascii_prefix_boundary(bytes: Seq<u8>, n: int)
    requires
        valid_utf8(bytes),
        0 <= n <= bytes.len(),
        forall|k: int| 0 <= k < n ==> #[trigger] bytes[k] < 0x80,
    ensures
        is_char_boundary(bytes, n),
    decreases n,
{
    if n > 0 {
        assert(bytes[0] < 0x80);
        let rest = pop_first_scalar(bytes);
        assert(rest == bytes.subrange(1, bytes.len() as int));
        assert forall|k: int| 0 <= k < n - 1 implies #[trigger] rest[k] < 0x80 by {
            assert(rest[k] == bytes[k + 1]);
        }
        lemma_ascii_prefix_boundary(rest, n - 1);
    }
}

/// ASCII bytes decode to the characters that they spell.
pub proof fn lemma_decode_ascii(bytes: Seq<u8>)
    requires
        forall|k: int| 0 <= k < bytes.len() ==> #[trigger] bytes[k] < 0x80,
    ensures
        valid_utf8(bytes),
        decode_utf8(bytes) == ascii_text(bytes),
        encode_utf8(ascii_text(bytes)) == bytes,
        is_ascii_chars(ascii_text(bytes)),
{
    let chars = ascii_text(bytes);
    assert(is_ascii_chars(chars)) by {
        assert forall|k: int| 0 <= k < chars.len() implies '\0' <= #[trigger] chars[k]
            <= '\u{7f}' by {
            assert(bytes[k] < 0x80);
        }
    }
    is_ascii_chars_encode_utf8(chars);
    assert(encode_utf8(chars) =~= bytes) by {
        assert forall|k: int| 0 <= k < bytes.len() implies encode_utf8(chars)[k] == bytes[k] by {
            assert(bytes[k] < 0x80);
            assert(chars[k] as u8 == encode_utf8(chars)[k]);
        }
    }
    encode_utf8_valid_utf8(chars);
    encode_utf8_decode_utf8(chars);
}

/// The slice of `src` from `start` to `end`, which holds ASCII bytes only and
/// at least one.
pub fn slice<'a>(src: &'a str, start: usize, end: usize) -> (text: &'a str)
    requires
        start < end <= src.spec_bytes().len(),
        forall|k: int| start <= k < end ==> #[trigger] src.spec_bytes()[k] < 0x80,
    ensures
        text@ == ascii_text(src.spec_bytes().subrange(start as int, end as int)),
        text.spec_bytes() == src.spec_bytes().subrange(start as int, end as int),
{
    let ghost bytes = src.spec_bytes();
    proof {
        encode_utf8_valid_utf8(src@);
        assert(bytes[start as int] < 0x80);
        is_char_boundary_iff_not_is_continuation_byte(bytes, start as int);
    }
    let (_, tail) = src.split_at(start);
    let ghost rest = tail.spec_bytes();
    proof {
        encode_utf8_valid_utf8(tail@);
        assert forall|k: int| 0 <= k < end - start implies #[trigger] rest[k] < 0x80 by {
            assert(rest[k] == bytes[start + k]);
        }
        lemma_ascii_prefix_boundary(rest, end - start);
    }
    let (text, _) = tail.split_at(end - start);
    proof {
        let part = bytes.subrange(start as int, end as int);
        assert(text.spec_bytes() =~= part);
        assert forall|k: int| 0 <= k < part.len() implies #[trigger] part[k] < 0x80 by {
            assert(part[k] == bytes[start + k]);
        }
        lemma_decode_ascii(part);
        encode_utf8_decode_utf8(text@);
    }
    text
}

} // verus!

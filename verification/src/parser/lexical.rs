//! The lexical rules, over the bytes of the text.

use vstd::prelude::*;

verus! {

/// `{`
pub const OPEN_BRACE: u8 = 0x7b;

/// `}`
pub const CLOSE_BRACE: u8 = 0x7d;

/// `(`
pub const OPEN_PAREN: u8 = 0x28;

/// `)`
pub const CLOSE_PAREN: u8 = 0x29;

/// `;`
pub const SEMICOLON: u8 = 0x3b;

/// `:`
pub const COLON: u8 = 0x3a;

/// `=`
pub const EQUALS: u8 = 0x3d;

/// `+`
pub const PLUS: u8 = 0x2b;

/// `-`
pub const MINUS: u8 = 0x2d;

/// `*`
pub const STAR: u8 = 0x2a;

/// `/`
pub const SLASH: u8 = 0x2f;

/// `,`
pub const COMMA: u8 = 0x2c;

/// `>`
pub const GREATER: u8 = 0x3e;

/// `0`
pub const ZERO: u8 = 0x30;

/// An ASCII digit: `0` to `9`.
pub open spec fn is_digit(b: u8) -> bool {
    0x30 <= b <= 0x39
}

/// An ASCII letter, `a` to `z` or `A` to `Z`, or an underscore.
pub open spec fn is_ident_start(b: u8) -> bool {
    (0x61 <= b <= 0x7a) || (0x41 <= b <= 0x5a) || b == 0x5f
}

/// An ASCII letter, an ASCII digit or an underscore.
pub open spec fn is_ident_continue(b: u8) -> bool {
    is_ident_start(b) || is_digit(b)
}

/// True for the three-byte encodings of white space: U+1680, U+2000 to
/// U+200A, U+2028, U+2029, U+202F, U+205F and U+3000.
pub open spec fn is_wide_whitespace(b0: u8, b1: u8, b2: u8) -> bool {
    ||| b0 == 0xe1 && b1 == 0x9a && b2 == 0x80
    ||| b0 == 0xe2 && b1 == 0x80 && (0x80 <= b2 <= 0x8a || b2 == 0xa8 || b2 == 0xa9 || b2 == 0xaf)
    ||| b0 == 0xe2 && b1 == 0x81 && b2 == 0x9f
    ||| b0 == 0xe3 && b1 == 0x80 && b2 == 0x80
}

/// The length in bytes of the white-space character that starts at `i`, zero
/// where none does. White space is what Unicode gives the property
/// `White_Space`: U+0009 to U+000D, U+0020, U+0085, U+00A0 and the
/// characters of [`is_wide_whitespace`], each in its UTF-8 encoding.
pub open spec fn whitespace_len(s: Seq<u8>, i: int) -> nat {
    if !(0 <= i < s.len()) {
        0
    } else if s[i] == 0x20 || 0x09 <= s[i] <= 0x0d {
        1
    } else if i + 1 < s.len() && s[i] == 0xc2 && (s[i + 1] == 0x85 || s[i + 1] == 0xa0) {
        2
    } else if i + 2 < s.len() && is_wide_whitespace(s[i], s[i + 1], s[i + 2]) {
        3
    } else {
        0
    }
}

/// The length in bytes of the longest run of white space that starts at `i`.
#[verifier::opaque]
pub open spec fn whitespace_run(s: Seq<u8>, i: int) -> nat
    decreases s.len() - i,
{
    let n = whitespace_len(s, i);
    if n > 0 {
        n + whitespace_run(s, i + n)
    } else {
        0
    }
}

/// The position of the first byte at or after `i` that is not white space:
/// where the next token starts, or the end of the text.
pub open spec fn token_start(s: Seq<u8>, i: int) -> int {
    i + whitespace_run(s, i)
}

/// The number of identifier bytes from `i` on.
pub open spec fn ident_len(s: Seq<u8>, i: int) -> nat
    decreases s.len() - i,
{
    if 0 <= i < s.len() && is_ident_continue(s[i]) {
        1 + ident_len(s, i + 1)
    } else {
        0
    }
}

/// The number of digits from `i` on.
pub open spec fn digits_len(s: Seq<u8>, i: int) -> nat
    decreases s.len() - i,
{
    if 0 <= i < s.len() && is_digit(s[i]) {
        1 + digits_len(s, i + 1)
    } else {
        0
    }
}

/// The number that the digits spell in base ten.
pub open spec fn digits_value(digits: Seq<u8>) -> nat
    decreases digits.len(),
{
    if digits.len() == 0 {
        0
    } else {
        10 * digits_value(digits.drop_last()) + (digits.last() - ZERO) as nat
    }
}

/// The length in bytes of the character that starts at `i`, as its first byte
/// tells it, cut at the end of the text; zero at the end of the text.
pub open spec fn char_len(s: Seq<u8>, i: int) -> nat {
    if !(0 <= i < s.len()) {
        0
    } else {
        let n: nat = if s[i] < 0xc0 {
            1
        } else if s[i] < 0xe0 {
            2
        } else if s[i] < 0xf0 {
            3
        } else {
            4
        };
        if i + n <= s.len() {
            n
        } else {
            (s.len() - i) as nat
        }
    }
}

/// The characters that ASCII bytes spell.
pub open spec fn ascii_text(bytes: Seq<u8>) -> Seq<char> {
    Seq::new(bytes.len(), |i: int| bytes[i] as char)
}

/// True when the word `word` stands at `i` and no identifier byte follows it.
#[verifier::opaque]
pub open spec fn keyword_at(s: Seq<u8>, i: int, word: Seq<u8>) -> bool {
    &&& 0 <= i
    &&& i + word.len() <= s.len()
    &&& s.subrange(i, i + word.len()) == word
    &&& ident_len(s, i) == word.len()
}

/// The bytes of the keyword `let`.
pub open spec fn let_keyword() -> Seq<u8> {
    seq![0x6c, 0x65, 0x74]
}

} // verus!

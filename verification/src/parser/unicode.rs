//! White space, by characters: the bytes that the scanner skips are the UTF-8
//! encodings of the characters with the Unicode property `White_Space`.

use vstd::prelude::*;
use vstd::utf8::{
    encode_scalar, encode_utf8, has_width_1_encoding, has_width_2_encoding, has_width_3_encoding,
    last_continuation_byte, leading_byte_width_2, leading_byte_width_3, leading_byte_width_4,
    second_last_continuation_byte,
};

use crate::parser::lexical::whitespace_len;

verus! {

/// True for the code points that Unicode gives the property `White_Space`.
pub open spec fn is_white_space_code(v: u32) -> bool {
    ||| 0x09 <= v <= 0x0d
    ||| v == 0x20
    ||| v == 0x85
    ||| v == 0xa0
    ||| v == 0x1680
    ||| 0x2000 <= v <= 0x200a
    ||| v == 0x2028
    ||| v == 0x2029
    ||| v == 0x202f
    ||| v == 0x205f
    ||| v == 0x3000
}

/// True for the characters that Unicode gives the property `White_Space`.
pub open spec fn is_white_space(c: char) -> bool {
    is_white_space_code(c as u32)
}

proof fn lemma_one_byte(v: u32)
    by (bit_vector)
    requires
        v <= 0x7f,
    ensures
        (v & 0x7F) as u8 == v,
{
}

proof fn lemma_two_bytes(v: u32)
    by (bit_vector)
    requires
        0x80 <= v <= 0x7ff,
    ensures
        (0xC0u8 | ((v >> 6) & 0x1F) as u8) >= 0xc0,
        ((0xC0u8 | ((v >> 6) & 0x1F) as u8) == 0xc2 && (0x80u8 | (v & 0x3F) as u8) == 0x85) <==> v
            == 0x85,
        ((0xC0u8 | ((v >> 6) & 0x1F) as u8) == 0xc2 && (0x80u8 | (v & 0x3F) as u8) == 0xa0) <==> v
            == 0xa0,
{
}

proof fn lemma_three_bytes(v: u32)
    by (bit_vector)
    requires
        0x800 <= v <= 0xffff,
    ensures
        (0xE0u8 | ((v >> 12) & 0x0F) as u8) >= 0xe0,
        ((0xE0u8 | ((v >> 12) & 0x0F) as u8) == 0xe1 && (0x80u8 | ((v >> 6) & 0x3F) as u8) == 0x9a
            && (0x80u8 | (v & 0x3F) as u8) == 0x80) <==> v == 0x1680,
        ((0xE0u8 | ((v >> 12) & 0x0F) as u8) == 0xe2 && (0x80u8 | ((v >> 6) & 0x3F) as u8) == 0x80
            && 0x80 <= (0x80u8 | (v & 0x3F) as u8) && (0x80u8 | (v & 0x3F) as u8) <= 0x8a) <==> (
        0x2000 <= v && v <= 0x200a),
        ((0xE0u8 | ((v >> 12) & 0x0F) as u8) == 0xe2 && (0x80u8 | ((v >> 6) & 0x3F) as u8) == 0x80
            && (0x80u8 | (v & 0x3F) as u8) == 0xa8) <==> v == 0x2028,
        ((0xE0u8 | ((v >> 12) & 0x0F) as u8) == 0xe2 && (0x80u8 | ((v >> 6) & 0x3F) as u8) == 0x80
            && (0x80u8 | (v & 0x3F) as u8) == 0xa9) <==> v == 0x2029,
        ((0xE0u8 | ((v >> 12) & 0x0F) as u8) == 0xe2 && (0x80u8 | ((v >> 6) & 0x3F) as u8) == 0x80
            && (0x80u8 | (v & 0x3F) as u8) == 0xaf) <==> v == 0x202f,
        ((0xE0u8 | ((v >> 12) & 0x0F) as u8) == 0xe2 && (0x80u8 | ((v >> 6) & 0x3F) as u8) == 0x81
            && (0x80u8 | (v & 0x3F) as u8) == 0x9f) <==> v == 0x205f,
        ((0xE0u8 | ((v >> 12) & 0x0F) as u8) == 0xe3 && (0x80u8 | ((v >> 6) & 0x3F) as u8) == 0x80
            && (0x80u8 | (v & 0x3F) as u8) == 0x80) <==> v == 0x3000,
{
}

proof fn lemma_four_bytes(v: u32)
    by (bit_vector)
    ensures
        (0xF0u8 | ((v >> 18) & 0x7) as u8) >= 0xf0,
{
}

/// The scanner takes the encoding of a character for white space if and only
/// if the character has the Unicode property `White_Space`, and then it takes
/// the whole encoding.
pub proof fn lemma_whitespace_is_white_space(c: char)
    ensures
        whitespace_len(encode_utf8(seq![c]), 0) == if is_white_space(c) {
            encode_utf8(seq![c]).len()
        } else {
            0
        },
{
    let v = c as u32;
    let s = encode_utf8(seq![c]);
    assert(seq![c].drop_first() =~= Seq::<char>::empty());
    assert(encode_utf8(seq![c].drop_first()) =~= Seq::<u8>::empty());
    assert(s =~= encode_scalar(v));
    if has_width_1_encoding(v) {
        lemma_one_byte(v);
        assert(s.len() == 1);
        assert(s[0] == v);
    } else if has_width_2_encoding(v) {
        lemma_two_bytes(v);
        assert(s.len() == 2);
        assert(s[0] == leading_byte_width_2(v) && s[1] == last_continuation_byte(v));
    } else if has_width_3_encoding(v) {
        lemma_three_bytes(v);
        assert(s.len() == 3);
        assert(s[0] == leading_byte_width_3(v) && s[1] == second_last_continuation_byte(v) && s[2]
            == last_continuation_byte(v));
    } else {
        lemma_four_bytes(v);
        assert(s.len() == 4);
        assert(s[0] == leading_byte_width_4(v));
        assert(v >= 0x800);
    }
}

} // verus!

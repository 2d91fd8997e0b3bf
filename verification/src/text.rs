//! Byte offsets of characters in UTF-8 text.

use vstd::prelude::*;
use vstd::utf8::{
    encode_scalar, encode_utf8, encode_utf8_first_scalar, encode_utf8_valid_utf8, is_char_boundary,
    pop_first_scalar,
};

verus! {

/// Number of bytes that `c` takes in UTF-8.
pub open spec fn utf8_width(c: char) -> int {
    encode_scalar(c as u32).len() as int
}

/// Offset, in bytes of the UTF-8 encoding of `text`, at which its `i`-th
/// character starts; for `i == text.len()`, the length of the encoding.
pub open spec fn byte_offset(text: Seq<char>, i: int) -> int {
    encode_utf8(text.subrange(0, i)).len() as int
}

/// Appending one character lengthens the encoding by that character's width.
pub proof fn lemma_encoded_len_push(s: Seq<char>, c: char)
    ensures
        encode_utf8(s.push(c)).len() == encode_utf8(s).len() + utf8_width(c),
    decreases s.len(),
{
    if s.len() == 0 {
        assert(s.push(c).drop_first() =~= s);
        assert(encode_utf8(s) =~= seq![]);
        assert(encode_utf8(s.push(c)) =~= encode_scalar(c as u32) + encode_utf8(s));
    } else {
        assert(s.push(c).drop_first() =~= s.drop_first().push(c));
        lemma_encoded_len_push(s.drop_first(), c);
    }
}

/// Every character takes between one and four bytes.
pub proof fn lemma_utf8_width_bounds(c: char)
    ensures
        1 <= utf8_width(c) <= 4,
{
}

/// The offset of the first character is zero, and each character starts
/// where the one before it ends.
pub proof fn lemma_byte_offset_step(text: Seq<char>, i: int)
    requires
        0 <= i < text.len(),
    ensures
        byte_offset(text, 0) == 0,
        byte_offset(text, i + 1) == byte_offset(text, i) + utf8_width(text[i]),
{
    assert(text.subrange(0, 0) =~= Seq::<char>::empty());
    assert(encode_utf8(Seq::<char>::empty()) =~= seq![]);
    assert(text.subrange(0, i + 1) =~= text.subrange(0, i).push(text[i]));
    lemma_encoded_len_push(text.subrange(0, i), text[i]);
}

/// Offsets grow with the index, by at least one byte for each character.
pub proof fn lemma_byte_offset_grows(text: Seq<char>, i: int, j: int)
    requires
        0 <= i <= j <= text.len(),
    ensures
        byte_offset(text, i) + (j - i) <= byte_offset(text, j),
    decreases j - i,
{
    if i < j {
        lemma_byte_offset_grows(text, i, j - 1);
        lemma_byte_offset_step(text, j - 1);
        lemma_utf8_width_bounds(text[j - 1]);
    }
}

/// The offset of a character after the first is the width of the first
/// character plus its offset in the rest of the text.
pub proof fn lemma_byte_offset_after_first(text: Seq<char>, i: int)
    requires
        1 <= i <= text.len(),
    ensures
        byte_offset(text, i) == utf8_width(text[0]) + byte_offset(text.drop_first(), i - 1),
{
    assert(text.subrange(0, i).drop_first() =~= text.drop_first().subrange(0, i - 1));
}

/// Every character starts at a character boundary of the encoded text, and
/// the end of the text is one too.
pub proof fn lemma_byte_offset_is_boundary(text: Seq<char>, i: int)
    requires
        0 <= i <= text.len(),
    ensures
        is_char_boundary(encode_utf8(text), byte_offset(text, i)),
    decreases i,
{
    let bytes = encode_utf8(text);
    encode_utf8_valid_utf8(text);
    if i == 0 {
        assert(text.subrange(0, 0) =~= Seq::<char>::empty());
    } else {
        let rest = text.drop_first();
        encode_utf8_first_scalar(text);
        assert(pop_first_scalar(bytes) =~= encode_utf8(rest));
        lemma_byte_offset_after_first(text, i);
        lemma_byte_offset_is_boundary(rest, i - 1);
        lemma_byte_offset_grows(text, 0, i);
        lemma_byte_offset_grows(text, i, text.len() as int);
        assert(text.subrange(0, text.len() as int) =~= text);
        assert(text.subrange(0, 0) =~= Seq::<char>::empty());
    }
}

/// Number of bytes that `c` takes in UTF-8.
pub fn char_width(c: char) -> (w: usize)
    ensures
        w == utf8_width(c),
{
    let v: u32 = c as u32;
    if v < 0x80 {
        1
    } else if v < 0x800 {
        2
    } else if v < 0x10000 {
        3
    } else {
        4
    }
}

} // verus!

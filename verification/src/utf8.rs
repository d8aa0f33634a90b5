//! Facts about the UTF-8 encoding of character sequences, used to move
//! between character positions and byte positions of a string.

use vstd::prelude::*;
use vstd::utf8::*;

verus! {

broadcast use vstd::utf8::group_utf8_lib;

/// The byte position at which character `i` of `text` starts in its UTF-8
/// encoding (for `i == text.len()`, the total byte length).
pub open spec fn byte_offset(text: Seq<char>, i: int) -> int {
    encode_utf8(text.take(i)).len() as int
}

/// Number of bytes in the UTF-8 encoding of a single character.
pub open spec fn char_width(c: char) -> int {
    encode_scalar(c as u32).len() as int
}

/// Encoding distributes over concatenation.
pub proof fn lemma_encode_concat(a: Seq<char>, b: Seq<char>)
    ensures
        encode_utf8(a + b) == encode_utf8(a) + encode_utf8(b),
    decreases a.len(),
{
    if a.len() == 0 {
        assert(a + b =~= b);
        assert(encode_utf8(a) =~= Seq::<u8>::empty());
        assert(encode_utf8(a) + encode_utf8(b) =~= encode_utf8(b));
    } else {
        assert((a + b).drop_first() =~= a.drop_first() + b);
        assert((a + b)[0] == a[0]);
        lemma_encode_concat(a.drop_first(), b);
        assert(encode_utf8(a + b) =~= encode_utf8(a) + encode_utf8(b));
    }
}

/// Encoding one character gives its scalar encoding.
pub proof fn lemma_encode_single(c: char)
    ensures
        encode_utf8(seq![c]) == encode_scalar(c as u32),
{
    assert(seq![c].drop_first() =~= Seq::<char>::empty());
    assert(encode_utf8(Seq::<char>::empty()) =~= Seq::<u8>::empty());
    assert(encode_utf8(seq![c]) =~= encode_scalar(c as u32));
}

/// Offsets grow by the width of each character.
pub proof fn lemma_byte_offset_step(text: Seq<char>, i: int)
    requires
        0 <= i < text.len(),
    ensures
        byte_offset(text, i + 1) == byte_offset(text, i) + char_width(text[i]),
{
    assert(text.take(i + 1) =~= text.take(i) + seq![text[i]]);
    lemma_encode_concat(text.take(i), seq![text[i]]);
    lemma_encode_single(text[i]);
}

/// The encoding of a whole sequence splits at any character position.
pub proof fn lemma_encode_split(text: Seq<char>, i: int)
    requires
        0 <= i <= text.len(),
    ensures
        encode_utf8(text) == encode_utf8(text.take(i)) + encode_utf8(text.skip(i)),
        encode_utf8(text).len() == byte_offset(text, i) + encode_utf8(text.skip(i)).len(),
{
    assert(text =~= text.take(i) + text.skip(i));
    lemma_encode_concat(text.take(i), text.skip(i));
}

/// Byte offsets never decrease.
pub proof fn lemma_byte_offset_monotone(text: Seq<char>, i: int, j: int)
    requires
        0 <= i <= j <= text.len(),
    ensures
        byte_offset(text, i) <= byte_offset(text, j),
    decreases j - i,
{
    if i < j {
        lemma_byte_offset_monotone(text, i, j - 1);
        lemma_byte_offset_step(text, j - 1);
    }
}

/// Distinct character positions have distinct byte offsets.
pub proof fn lemma_byte_offset_strict(text: Seq<char>, i: int, j: int)
    requires
        0 <= i < j <= text.len(),
    ensures
        byte_offset(text, i) < byte_offset(text, j),
{
    lemma_byte_offset_step(text, i);
    char_is_scalar(text[i]);
    lemma_byte_offset_monotone(text, i + 1, j);
}

/// The byte offset of every character position is a character boundary of
/// the encoding.
pub proof fn lemma_byte_offset_is_boundary(text: Seq<char>, i: int)
    requires
        0 <= i <= text.len(),
    ensures
        is_char_boundary(encode_utf8(text), byte_offset(text, i)),
    decreases i,
{
    let bytes = encode_utf8(text);
    encode_utf8_valid_utf8(text);
    if i == 0 {
        assert(text.take(0) =~= Seq::<char>::empty());
        assert(encode_utf8(text.take(0)) =~= Seq::<u8>::empty());
    } else {
        encode_utf8_first_scalar(text);
        assert(pop_first_scalar(bytes) =~= encode_utf8(text.drop_first()));
        lemma_byte_offset_is_boundary(text.drop_first(), i - 1);
        assert(text.take(i) =~= seq![text[0]] + text.drop_first().take(i - 1));
        lemma_encode_concat(seq![text[0]], text.drop_first().take(i - 1));
        lemma_encode_single(text[0]);
        lemma_byte_offset_monotone(text, 1, i);
        assert(text.take(1) =~= seq![text[0]]);
        lemma_encode_split(text, i);
    }
}

/// Two character sequences with the same encoding are equal.
pub proof fn lemma_encode_injective(a: Seq<char>, b: Seq<char>)
    requires
        encode_utf8(a) == encode_utf8(b),
    ensures
        a == b,
{
    encode_utf8_decode_utf8(a);
    encode_utf8_decode_utf8(b);
}

/// Width in bytes of the UTF-8 encoding of `c`.
pub fn utf8_width(c: char) -> (w: usize)
    ensures
        w == char_width(c),
        1 <= w <= 4,
{
    proof {
        char_is_scalar(c);
    }
    let v = c as u32;
    if v <= 0x7F {
        1
    } else if v <= 0x7FF {
        2
    } else if v <= 0xFFFF {
        3
    } else {
        4
    }
}

} // verus!

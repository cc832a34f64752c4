//! Parts of a string slice between two character positions, taken in constant time from
//! the byte offsets of those positions.

use vstd::prelude::*;
use vstd::string::*;
use vstd::utf8::{
    encode_scalar, encode_utf8, encode_utf8_decode_utf8, encode_utf8_first_scalar,
    encode_utf8_valid_utf8, is_char_boundary, pop_first_scalar,
};

verus! {

/// The number of bytes that the first `i` characters of a text take in UTF-8: the byte
/// offset of character `i`.
pub open spec fn offset(text: Seq<char>, i: int) -> int {
    encode_utf8(text.take(i)).len() as int
}

/// The UTF-8 bytes of two texts, one after the other, are the bytes of the first and then
/// the bytes of the second.
pub proof fn lemma_encode_concat(a: Seq<char>, b: Seq<char>)
    ensures
        encode_utf8(a + b) == encode_utf8(a) + encode_utf8(b),
    decreases a.len(),
{
    if a.len() == 0 {
        assert(a + b =~= b);
        assert(encode_utf8(a) + encode_utf8(b) =~= encode_utf8(b));
    } else {
        assert((a + b)[0] == a[0]);
        assert((a + b).drop_first() =~= a.drop_first() + b);
        lemma_encode_concat(a.drop_first(), b);
        assert(encode_utf8(a + b) =~= encode_utf8(a) + encode_utf8(b));
    }
}

/// Where one text ends and the next begins, a character begins in their UTF-8 bytes.
pub proof fn lemma_boundary(a: Seq<char>, b: Seq<char>)
    ensures
        is_char_boundary(encode_utf8(a + b), encode_utf8(a).len() as int),
    decreases a.len(),
{
    let bytes = encode_utf8(a + b);
    encode_utf8_valid_utf8(a + b);
    lemma_encode_concat(a, b);
    if a.len() > 0 {
        encode_utf8_first_scalar(a + b);
        assert((a + b)[0] == a[0]);
        assert((a + b).drop_first() =~= a.drop_first() + b);
        assert(pop_first_scalar(bytes) =~= encode_utf8(a.drop_first() + b));
        lemma_boundary(a.drop_first(), b);
        assert(encode_scalar(a[0] as u32).len() > 0);
    }
}

/// The byte offset of a character is the offset of the one before it and the bytes of that
/// one, and no offset lies beyond the end of the bytes.
pub proof fn lemma_offset_step(text: Seq<char>, i: int)
    requires
        0 <= i < text.len(),
    ensures
        offset(text, i + 1) == offset(text, i) + encode_scalar(text[i] as u32).len(),
        offset(text, i + 1) <= encode_utf8(text).len(),
        offset(text, text.len() as int) == encode_utf8(text).len(),
{
    let one = seq![text[i]];
    assert(text.take(i + 1) =~= text.take(i) + one);
    lemma_encode_concat(text.take(i), one);
    assert(one.drop_first() =~= Seq::<char>::empty());
    assert(encode_utf8(one) =~= encode_scalar(text[i] as u32)) by {
        reveal_with_fuel(encode_utf8, 2);
    }
    assert(text =~= text.take(i + 1) + text.skip(i + 1));
    lemma_encode_concat(text.take(i + 1), text.skip(i + 1));
    assert(text.take(text.len() as int) =~= text);
}

/// The number of bytes that a character takes in UTF-8.
pub fn char_width(c: char) -> (width: usize)
    ensures
        width == encode_scalar(c as u32).len(),
        1 <= width <= 4,
{
    let code = c as u32;
    if code < 0x80 {
        1
    } else if code < 0x800 {
        2
    } else if code < 0x1_0000 {
        3
    } else {
        4
    }
}

/// The part of a text from character `i` up to character `j`, taken at the byte offsets
/// `from` and `to` of the two.
pub(crate) fn cut<'a>(
    text: &'a str,
    from: usize,
    to: usize,
    Ghost(i): Ghost<int>,
    Ghost(j): Ghost<int>,
) -> (part: &'a str)
    requires
        0 <= i <= j <= text@.len(),
        from == offset(text@, i),
        to == offset(text@, j),
    ensures
        part@ == text@.subrange(i, j),
{
    let ghost before = text@.take(i);
    let ghost middle = text@.subrange(i, j);
    let ghost after = text@.skip(j);
    proof {
        assert(text@.take(j) =~= before + middle);
        assert(text@ =~= (before + middle) + after);
        lemma_boundary(before + middle, after);
        lemma_encode_concat(before + middle, after);
    }
    let (head, _) = text.split_at(to);
    proof {
        assert(head.spec_bytes() =~= encode_utf8(before + middle));
        lemma_boundary(before, middle);
        lemma_encode_concat(before, middle);
    }
    let (_, part) = head.split_at(from);
    proof {
        assert(part.spec_bytes() =~= encode_utf8(middle));
        encode_utf8_decode_utf8(part@);
        encode_utf8_decode_utf8(middle);
    }
    part
}

} // verus!

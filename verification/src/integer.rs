//! 32-bit values as one to four words: the big-endian bytes of the value with leading zero
//! bytes elided, so that the number of words tells the magnitude.

use crate::codec::{bytes_of, decode_bytes, encode_bytes, texts, words_of};
use vstd::prelude::*;

verus! {

/// The value of a big-endian byte string: each byte extends the value so far by eight bits.
pub open spec fn be_value(bytes: Seq<u8>) -> nat
    decreases bytes.len(),
{
    if bytes.len() == 0 {
        0
    } else {
        be_value(bytes.drop_last()) * 256 + bytes.last() as nat
    }
}

/// The shortest big-endian byte string of a value that has at least one byte: the digits of
/// the value to the base 256, most significant first.
pub open spec fn trimmed_bytes(value: nat) -> Seq<u8>
    decreases value,
{
    if value < 256 {
        seq![value as u8]
    } else {
        trimmed_bytes(value / 256).push((value % 256) as u8)
    }
}

/// A byte string is trimmed when it has at least one byte and, unless it is a single byte,
/// does not begin with a zero byte.
pub open spec fn is_trimmed(bytes: Seq<u8>) -> bool {
    bytes.len() == 1 || (bytes.len() > 1 && bytes[0] != 0)
}

/// Why integer decoding failed.
#[derive(Clone, Copy, Debug, PartialEq, Eq, Structural)]
pub enum DecodeError {
    /// The word at this position is not in the dictionary.
    InvalidWord(usize),
    /// Every word is in the dictionary, but there are more than four of them.
    TooManyWords,
}

impl DecodeError {
    /// The index that reports this error: the position of the invalid word, and 4 for too
    /// many words. An invalid word at position 4 is reported by the same index.
    pub open spec fn code(self) -> usize {
        match self {
            DecodeError::InvalidWord(i) => i,
            DecodeError::TooManyWords => 4,
        }
    }

    /// The index that reports this error.
    pub fn index(&self) -> (i: usize)
        ensures
            i == self.code(),
    {
        match self {
            DecodeError::InvalidWord(i) => *i,
            DecodeError::TooManyWords => 4,
        }
    }
}

/// The words that stand for a 32-bit value.
pub open spec fn words_of_u32(value: u32) -> Seq<Seq<char>> {
    words_of(trimmed_bytes(value as nat))
}

/// The 32-bit value that a word sequence stands for, or why it stands for none.
pub open spec fn value_of(words: Seq<Seq<char>>) -> Result<u32, DecodeError> {
    match bytes_of(words) {
        Err(i) => Err(DecodeError::InvalidWord(i)),
        Ok(bytes) => if bytes.len() > 4 {
            Err(DecodeError::TooManyWords)
        } else {
            Ok(be_value(bytes) as u32)
        },
    }
}

/// The 32-bit value that a word sequence stands for, or the index that reports the error.
pub open spec fn u32_of(words: Seq<Seq<char>>) -> Result<u32, usize> {
    match value_of(words) {
        Ok(value) => Ok(value),
        Err(e) => Err(e.code()),
    }
}

/// Appending a byte multiplies the value by 256 and adds the byte.
pub proof fn lemma_be_value_push(bytes: Seq<u8>, last: u8)
    ensures
        be_value(bytes.push(last)) == be_value(bytes) * 256 + last,
{
    assert(bytes.push(last).drop_last() =~= bytes);
}

/// A leading zero byte does not change the value.
pub proof fn lemma_be_value_leading_zero(bytes: Seq<u8>)
    requires
        bytes.len() > 0,
        bytes[0] == 0,
    ensures
        be_value(bytes.drop_first()) == be_value(bytes),
    decreases bytes.len(),
{
    if bytes.len() == 1 {
        assert(bytes.drop_first().len() == 0);
        assert(be_value(bytes.drop_last()) == 0);
    } else {
        lemma_be_value_leading_zero(bytes.drop_last());
        assert(bytes.drop_first().drop_last() =~= bytes.drop_last().drop_first());
    }
}

/// A byte string of `n` bytes has a value below 256 to the power `n`; up to four bytes
/// have a value that fits 32 bits.
pub proof fn lemma_be_value_bound(bytes: Seq<u8>)
    ensures
        bytes.len() <= 1 ==> be_value(bytes) < 0x100,
        bytes.len() <= 2 ==> be_value(bytes) < 0x1_0000,
        bytes.len() <= 3 ==> be_value(bytes) < 0x100_0000,
        bytes.len() <= 4 ==> be_value(bytes) < 0x1_0000_0000,
    decreases bytes.len(),
{
    if bytes.len() > 0 {
        lemma_be_value_bound(bytes.drop_last());
    }
}

/// A byte string that begins with a byte other than zero has a value of at least 256 to
/// the power of the number of bytes that follow.
proof fn lemma_be_value_positive(bytes: Seq<u8>)
    requires
        bytes.len() > 0,
        bytes[0] != 0,
    ensures
        be_value(bytes) > 0,
        bytes.len() > 1 ==> be_value(bytes) >= 256,
    decreases bytes.len(),
{
    if bytes.len() > 1 {
        lemma_be_value_positive(bytes.drop_last());
    }
}

/// The trimmed bytes of a value have that value.
pub proof fn lemma_trimmed_value(value: nat)
    ensures
        be_value(trimmed_bytes(value)) == value,
        is_trimmed(trimmed_bytes(value)),
    decreases value,
{
    if value < 256 {
        let s = seq![value as u8];
        assert(s.drop_last().len() == 0);
        assert(be_value(s.drop_last()) == 0);
    } else {
        lemma_trimmed_value(value / 256);
        lemma_be_value_push(trimmed_bytes(value / 256), (value % 256) as u8);
        let head = trimmed_bytes(value / 256);
        assert(head.push((value % 256) as u8)[0] == head[0]);
        if head.len() == 1 {
            assert(be_value(head.drop_last()) == 0);
            assert(head[0] != 0);
        }
    }
}

/// A trimmed byte string is the trimmed bytes of its value: no two trimmed byte strings
/// have the same value.
pub proof fn lemma_trimmed_unique(bytes: Seq<u8>)
    requires
        is_trimmed(bytes),
    ensures
        trimmed_bytes(be_value(bytes)) == bytes,
    decreases bytes.len(),
{
    if bytes.len() == 1 {
        assert(be_value(bytes.drop_last()) == 0);
        assert(trimmed_bytes(be_value(bytes)) =~= bytes);
    } else {
        let head = bytes.drop_last();
        assert(head[0] == bytes[0]);
        lemma_be_value_positive(head);
        lemma_trimmed_unique(head);
        assert(be_value(bytes) / 256 == be_value(head));
        assert(be_value(bytes) % 256 == bytes.last());
        assert(head.push(bytes.last()) =~= bytes);
    }
}

/// The trimmed bytes of a 32-bit value are one to four bytes, and a single byte exactly
/// when the value is below 256.
pub proof fn lemma_trimmed_len(value: u32)
    ensures
        1 <= trimmed_bytes(value as nat).len() <= 4,
        trimmed_bytes(value as nat).len() == 1 <==> value < 256,
        trimmed_bytes(value as nat).len() == 2 <==> 0x100 <= value < 0x1_0000,
        trimmed_bytes(value as nat).len() == 3 <==> 0x1_0000 <= value < 0x100_0000,
        trimmed_bytes(value as nat).len() == 4 <==> 0x100_0000 <= value,
{
    reveal_with_fuel(trimmed_bytes, 5);
}

/// Folds bytes, most significant first, into a 32-bit value: each byte shifts the value so
/// far by eight bits and takes the place of the low eight. Of more than four bytes only
/// the last four count.
pub fn fold_bytes(bytes: &[u8]) -> (value: u32)
    ensures
        value == be_value(bytes@) % 0x1_0000_0000,
{
    let mut acc: u32 = 0;
    let mut i: usize = 0;
    while i < bytes.len()
        invariant
            i <= bytes@.len(),
            acc == be_value(bytes@.take(i as int)) % 0x1_0000_0000,
        decreases bytes@.len() - i,
    {
        let b: u8 = bytes[i];
        proof {
            assert(bytes@.take(i + 1) =~= bytes@.take(i as int).push(b));
            lemma_be_value_push(bytes@.take(i as int), b);
            let a = acc;
            assert(((a << 8) | (b as u32)) as u64 == ((a as u64) * 256 + (b as u64))
                % 0x1_0000_0000) by (bit_vector);
        }
        acc = (acc << 8) | (b as u32);
        i += 1;
    }
    proof {
        assert(bytes@.take(i as int) =~= bytes@);
    }
    acc
}

/// Encodes a 32-bit value as one to four words: the words of its big-endian bytes, without
/// the leading zero bytes but with at least the last byte. The value 0 is one word, the word
/// of byte 0.
pub fn encode_u32(num: u32) -> (words: Vec<&'static str>)
    ensures
        texts(words@) == words_of_u32(num),
        1 <= words@.len() <= 4,
        words@.len() == 1 <==> num < 256,
{
    let b3: u8 = ((num >> 24) & 0xff) as u8;
    let b2: u8 = ((num >> 16) & 0xff) as u8;
    let b1: u8 = ((num >> 8) & 0xff) as u8;
    let b0: u8 = (num & 0xff) as u8;
    let mut bytes: Vec<u8> = Vec::with_capacity(4);
    bytes.push(b3);
    bytes.push(b2);
    bytes.push(b1);
    bytes.push(b0);
    proof {
        assert(b3 as u32 * 0x100_0000 + b2 as u32 * 0x1_0000 + b1 as u32 * 0x100 + b0 as u32
            == num) by (bit_vector)
            requires
                b3 == ((num >> 24) & 0xff) as u8,
                b2 == ((num >> 16) & 0xff) as u8,
                b1 == ((num >> 8) & 0xff) as u8,
                b0 == (num & 0xff) as u8,
        ;
        let s0 = Seq::<u8>::empty();
        lemma_be_value_push(s0, b3);
        lemma_be_value_push(s0.push(b3), b2);
        lemma_be_value_push(s0.push(b3).push(b2), b1);
        lemma_be_value_push(s0.push(b3).push(b2).push(b1), b0);
        assert(bytes@ =~= s0.push(b3).push(b2).push(b1).push(b0));
    }
    while bytes.len() > 1 && bytes[0] == 0
        invariant
            1 <= bytes@.len() <= 4,
            be_value(bytes@) == num,
        decreases bytes@.len(),
    {
        proof {
            lemma_be_value_leading_zero(bytes@);
            assert(bytes@.remove(0) =~= bytes@.drop_first());
        }
        bytes.remove(0);
    }
    proof {
        lemma_trimmed_unique(bytes@);
        lemma_trimmed_len(num);
    }
    let words = encode_bytes(bytes.as_slice());
    proof {
        assert(words@.len() == texts(words@).len());
    }
    words
}

/// Decodes one to four words to a 32-bit value. Fails with `InvalidWord` at the first word
/// that the dictionary does not hold; where every word is held, fails with `TooManyWords`
/// for more than four of them. No words at all decode to 0.
pub fn decode_value(words: &[&str]) -> (result: Result<u32, DecodeError>)
    ensures
        result == value_of(texts(words@)),
{
    match decode_bytes(words) {
        Err(i) => Err(DecodeError::InvalidWord(i)),
        Ok(bytes) => {
            if bytes.len() > 4 {
                Err(DecodeError::TooManyWords)
            } else {
                proof {
                    lemma_be_value_bound(bytes@);
                }
                Ok(fold_bytes(bytes.as_slice()))
            }
        },
    }
}

/// Decodes one to four words to a 32-bit value. The error is an index: the position of the
/// first word that the dictionary does not hold, or 4 where every word is held and there
/// are more than four of them.
pub fn decode_u32(words: &[&str]) -> (result: Result<u32, usize>)
    ensures
        result == u32_of(texts(words@)),
{
    match decode_value(words) {
        Ok(value) => Ok(value),
        Err(e) => Err(e.index()),
    }
}

} // verus!

//! Byte sequences to word sequences and back, one word for each byte.

use crate::dictionary::word_at;
use crate::lookup::{byte_for_word, byte_of, word_for_byte};
use vstd::prelude::*;

verus! {

/// The characters of each string of a sequence.
pub open spec fn texts<'a>(words: Seq<&'a str>) -> Seq<Seq<char>> {
    words.map_values(|w: &'a str| w@)
}

/// The words that stand for a byte sequence: the word of each byte, in order.
pub open spec fn words_of(bytes: Seq<u8>) -> Seq<Seq<char>> {
    bytes.map_values(|b: u8| word_at(b))
}

/// Position `i` holds the first word that stands for no byte.
pub open spec fn rejected_at(words: Seq<Seq<char>>, i: int) -> bool {
    &&& 0 <= i < words.len()
    &&& byte_of(words[i]) is None
    &&& forall|j: int| 0 <= j < i ==> byte_of(#[trigger] words[j]) is Some
}

/// The bytes that a word sequence stands for: the byte of each word, in order, or the
/// position of the first word that stands for none.
pub open spec fn bytes_of(words: Seq<Seq<char>>) -> Result<Seq<u8>, usize> {
    if exists|i: int| rejected_at(words, i) {
        Err((choose|i: int| rejected_at(words, i)) as usize)
    } else {
        Ok(words.map_values(|w: Seq<char>| byte_of(w).unwrap()))
    }
}

/// At most one position holds the first rejected word.
pub proof fn lemma_rejected_once(words: Seq<Seq<char>>, i: int, j: int)
    requires
        rejected_at(words, i),
        rejected_at(words, j),
    ensures
        i == j,
{
    if i < j {
        assert(byte_of(words[i]) is Some);
    } else if j < i {
        assert(byte_of(words[j]) is Some);
    }
}

/// A word sequence whose first rejected word stands at `i` decodes to the error `i`.
pub proof fn lemma_bytes_of_rejected(words: Seq<Seq<char>>, i: int)
    requires
        rejected_at(words, i),
        i <= usize::MAX,
    ensures
        bytes_of(words) == Err::<Seq<u8>, usize>(i as usize),
{
    let k = choose|k: int| rejected_at(words, k);
    lemma_rejected_once(words, i, k);
}

/// A word sequence in which every word stands for a byte decodes to those bytes.
pub proof fn lemma_bytes_of_accepted(words: Seq<Seq<char>>, bytes: Seq<u8>)
    requires
        bytes.len() == words.len(),
        forall|j: int| 0 <= j < words.len() ==> byte_of(#[trigger] words[j]) == Some(bytes[j]),
    ensures
        bytes_of(words) == Ok::<Seq<u8>, usize>(bytes),
{
    if exists|i: int| rejected_at(words, i) {
        let k = choose|k: int| rejected_at(words, k);
        assert(byte_of(words[k]) is Some);
    }
    assert(words.map_values(|w: Seq<char>| byte_of(w).unwrap()) =~= bytes);
}

/// Encodes each byte as its word. The result has one word for each byte, in the same order.
pub fn encode_bytes(bytes: &[u8]) -> (words: Vec<&'static str>)
    ensures
        texts(words@) == words_of(bytes@),
        words@.len() == bytes@.len(),
{
    let mut words: Vec<&'static str> = Vec::new();
    let mut i: usize = 0;
    while i < bytes.len()
        invariant
            i <= bytes@.len(),
            words@.len() == i,
            forall|j: int| 0 <= j < i ==> (#[trigger] words@[j])@ == word_at(bytes@[j]),
        decreases bytes@.len() - i,
    {
        words.push(word_for_byte(bytes[i]));
        i += 1;
    }
    proof {
        assert(texts(words@) =~= words_of(bytes@));
    }
    words
}

/// Decodes each word to its byte, whatever the case of its letters. Fails at the first word
/// that the dictionary does not hold, with the position of that word.
pub fn decode_bytes(words: &[&str]) -> (result: Result<Vec<u8>, usize>)
    ensures
        match result {
            Ok(bytes) => bytes_of(texts(words@)) == Ok::<Seq<u8>, usize>(bytes@),
            Err(i) => bytes_of(texts(words@)) == Err::<Seq<u8>, usize>(i),
        },
        result is Ok <==> forall|j: int|
            0 <= j < words@.len() ==> byte_of(#[trigger] words@[j]@) is Some,
        match result {
            Ok(bytes) => bytes@.len() == words@.len() && forall|j: int|
                0 <= j < words@.len() ==> byte_of(#[trigger] words@[j]@) == Some(bytes@[j]),
            Err(i) => rejected_at(texts(words@), i as int),
        },
{
    let mut bytes: Vec<u8> = Vec::new();
    let mut i: usize = 0;
    while i < words.len()
        invariant
            i <= words@.len(),
            bytes@.len() == i,
            forall|j: int| 0 <= j < i ==> byte_of(#[trigger] texts(words@)[j]) == Some(bytes@[j]),
        decreases words@.len() - i,
    {
        match byte_for_word(words[i]) {
            Some(b) => {
                bytes.push(b);
            },
            None => {
                proof {
                    assert(texts(words@)[i as int] == words@[i as int]@);
                    assert(rejected_at(texts(words@), i as int));
                    lemma_bytes_of_rejected(texts(words@), i as int);
                }
                return Err(i);
            },
        }
        i += 1;
    }
    proof {
        lemma_bytes_of_accepted(texts(words@), bytes@);
        assert forall|j: int| 0 <= j < words@.len() implies byte_of(#[trigger] words@[j]@)
            == Some(bytes@[j]) by {
            assert(texts(words@)[j] == words@[j]@);
        }
    }
    Ok(bytes)
}

} // verus!

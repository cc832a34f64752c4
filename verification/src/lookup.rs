//! The two lookups that everything else is built from: the word of a byte, and the byte of
//! a word.

use crate::casing::{fold, folded};
use crate::dictionary::{
    dictionary, lemma_ascending, lemma_dictionary_well_formed, lemma_words_distinct, well_formed,
    word_at, WORDS,
};
use crate::order::{
    compare, lemma_precedes_asymmetric, lemma_precedes_transitive, precedes, Rank,
};
use vstd::prelude::*;
use vstd::utf8::{encode_utf8, encode_utf8_decode_utf8};

verus! {

/// The byte whose word is exactly `text`, if there is one.
pub open spec fn index_of(text: Seq<char>) -> Option<u8> {
    if exists|b: u8| word_at(b) == text {
        Some(choose|b: u8| word_at(b) == text)
    } else {
        None
    }
}

/// The byte that a word stands for, whatever the case of its letters.
pub open spec fn byte_of(word: Seq<char>) -> Option<u8> {
    index_of(folded(word))
}

/// The byte of a dictionary word is the position at which it stands.
pub proof fn lemma_index_of_word(b: u8)
    ensures
        index_of(word_at(b)) == Some(b),
{
    let found = choose|c: u8| word_at(c) == word_at(b);
    if found != b {
        lemma_words_distinct(found, b);
    }
}

/// The whole table, in order.
pub fn words() -> (table: Vec<&'static str>)
    ensures
        table@ == dictionary(),
        well_formed(table@),
{
    let mut table: Vec<&'static str> = Vec::with_capacity(256);
    let mut i: usize = 0;
    while i < 256
        invariant
            i <= 256,
            table@.len() == i,
            forall|j: int| 0 <= j < i ==> table@[j] == dictionary()[j],
        decreases 256 - i,
    {
        table.push(WORDS[i]);
        i += 1;
    }
    proof {
        assert(table@ =~= dictionary());
        lemma_dictionary_well_formed();
    }
    table
}

/// The word for a byte.
pub fn word_for_byte(b: u8) -> (word: &'static str)
    ensures
        word@ == word_at(b),
{
    WORDS[b as usize]
}

/// Searches the table by bisection for the word whose UTF-8 bytes are exactly `key`, and
/// gives its position. No folding happens here.
pub fn find(key: &[u8]) -> (found: Option<u8>)
    ensures
        match found {
            Some(b) => encode_utf8(word_at(b)) == key@,
            None => forall|b: u8| encode_utf8(word_at(b)) != key@,
        },
{
    let mut low: usize = 0;
    let mut high: usize = 256;
    while low < high
        invariant
            low <= high <= 256,
            forall|i: int| 0 <= i < low ==> precedes(encode_utf8(dictionary()[i]@), key@),
            forall|i: int| high <= i < 256 ==> precedes(key@, encode_utf8(dictionary()[i]@)),
        decreases high - low,
    {
        let mid = low + (high - low) / 2;
        let entry = WORDS[mid].as_bytes();
        match compare(entry, key) {
            Rank::Same => {
                return Some(mid as u8);
            },
            Rank::Before => {
                proof {
                    assert forall|i: int| 0 <= i < mid + 1 implies precedes(
                        encode_utf8(dictionary()[i]@),
                        key@,
                    ) by {
                        if i < mid {
                            lemma_ascending(i, mid as int);
                            lemma_precedes_transitive(
                                encode_utf8(dictionary()[i]@),
                                encode_utf8(dictionary()[mid as int]@),
                                key@,
                            );
                        }
                    }
                }
                low = mid + 1;
            },
            Rank::After => {
                proof {
                    assert forall|i: int| mid <= i < 256 implies precedes(
                        key@,
                        encode_utf8(dictionary()[i]@),
                    ) by {
                        if mid < i {
                            lemma_ascending(mid as int, i);
                            lemma_precedes_transitive(
                                key@,
                                encode_utf8(dictionary()[mid as int]@),
                                encode_utf8(dictionary()[i]@),
                            );
                        }
                    }
                }
                high = mid;
            },
        }
    }
    proof {
        assert forall|b: u8| encode_utf8(word_at(b)) != key@ by {
            if b < low {
                lemma_precedes_asymmetric(encode_utf8(word_at(b)), key@);
            } else {
                lemma_precedes_asymmetric(key@, encode_utf8(word_at(b)));
            }
        }
    }
    None
}

/// The byte for a word: the position of its folded form in the dictionary, or `None` when
/// the dictionary does not hold it.
pub fn byte_for_word(word: &str) -> (found: Option<u8>)
    ensures
        found == byte_of(word@),
{
    let key = fold(word);
    let found = find(key.as_slice());
    proof {
        let text = folded(word@);
        match found {
            Some(b) => {
                encode_utf8_decode_utf8(word_at(b));
                encode_utf8_decode_utf8(text);
                assert(word_at(b) == text);
                lemma_index_of_word(b);
            },
            None => {
                assert forall|b: u8| word_at(b) != text by {
                    assert(encode_utf8(word_at(b)) != key@);
                }
            },
        }
    }
    found
}

} // verus!

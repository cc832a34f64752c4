//! What holds of the codec for every input: decoding undoes encoding, the case of letters
//! does not matter, and errors name the right position.

use crate::casing::{ascii_lower, folded};
use crate::codec::{
    bytes_of, lemma_bytes_of_accepted, lemma_bytes_of_rejected, lemma_rejected_once,
    rejected_at, words_of,
};
use crate::dictionary::{is_word, lemma_entry_is_word, word_at};
use crate::integer::{
    be_value, lemma_be_value_bound, lemma_trimmed_len, lemma_trimmed_value, trimmed_bytes,
    u32_of, value_of, words_of_u32, DecodeError,
};
use crate::lookup::{byte_of, lemma_index_of_word};
use crate::phrase::{
    is_solid, joined, lemma_joined_push, lemma_split_after_space, lemma_split_empty,
    lemma_split_first_word, phrase_of_u32, split,
};
use vstd::prelude::*;
use vstd::utf8::is_ascii_chars;

verus! {

/// Folding leaves a word as it is.
pub proof fn lemma_folded_word(word: Seq<char>)
    requires
        is_word(word),
    ensures
        folded(word) == word,
{
    assert(is_ascii_chars(word));
    assert(folded(word) =~= word);
}

/// The word of a byte stands for that byte.
pub proof fn lemma_byte_of_word(b: u8)
    ensures
        byte_of(word_at(b)) == Some(b),
{
    lemma_entry_is_word(b);
    lemma_folded_word(word_at(b));
    lemma_index_of_word(b);
}

/// Decoding the words of a byte sequence gives the byte sequence back.
pub proof fn round_trip_bytes(bytes: Seq<u8>)
    ensures
        bytes_of(words_of(bytes)) == Ok::<Seq<u8>, usize>(bytes),
{
    let words = words_of(bytes);
    assert forall|j: int| 0 <= j < words.len() implies byte_of(#[trigger] words[j]) == Some(
        bytes[j],
    ) by {
        lemma_byte_of_word(bytes[j]);
    }
    lemma_bytes_of_accepted(words, bytes);
}

/// A 32-bit value has one to four words, and one word exactly when it is below 256.
pub proof fn word_count_of_u32(value: u32)
    ensures
        1 <= words_of_u32(value).len() <= 4,
        words_of_u32(value).len() == 1 <==> value < 256,
{
    lemma_trimmed_len(value);
}

/// Decoding the words of a 32-bit value gives the value back.
pub proof fn round_trip_u32(value: u32)
    ensures
        u32_of(words_of_u32(value)) == Ok::<u32, usize>(value),
{
    let bytes = trimmed_bytes(value as nat);
    round_trip_bytes(bytes);
    lemma_trimmed_len(value);
    lemma_trimmed_value(value as nat);
}

/// Every word of a byte sequence is a word of the dictionary: not empty, and without
/// whitespace.
pub proof fn lemma_words_solid(bytes: Seq<u8>, j: int)
    requires
        0 <= j < bytes.len(),
    ensures
        words_of(bytes)[j].len() > 0,
        is_solid(words_of(bytes)[j]),
{
    lemma_entry_is_word(bytes[j]);
}

/// Splitting what words join to gives the words back, where none of them is empty or holds
/// whitespace.
pub proof fn lemma_split_joined(words: Seq<Seq<char>>)
    requires
        forall|j: int| 0 <= j < words.len() ==> (#[trigger] words[j]).len() > 0 && is_solid(words[j]),
    ensures
        split(joined(words)) == words,
    decreases words.len(),
{
    if words.len() == 0 {
        lemma_split_empty();
    } else {
        let head = words.drop_last();
        let last = words.last();
        assert forall|j: int| 0 <= j < head.len() implies (#[trigger] head[j]).len() > 0
            && is_solid(head[j]) by {
            assert(head[j] == words[j]);
        }
        lemma_split_joined(head);
        lemma_split_append(head, last);
        assert(head.push(last) =~= words);
    }
}

/// Joining one more word to words adds it to what the phrase splits into.
proof fn lemma_split_append(words: Seq<Seq<char>>, last: Seq<char>)
    requires
        forall|j: int| 0 <= j < words.len() ==> (#[trigger] words[j]).len() > 0 && is_solid(words[j]),
        last.len() > 0,
        is_solid(last),
    ensures
        split(joined(words.push(last))) == split(joined(words)).push(last),
    decreases words.len(),
{
    let e = Seq::<char>::empty();
    lemma_joined_push(words, last);
    lemma_split_empty();
    if words.len() == 0 {
        assert(last + e =~= last);
        lemma_split_first_word(last, e);
        assert(seq![last] + Seq::<Seq<char>>::empty() =~= Seq::<Seq<char>>::empty().push(last));
    } else {
        lemma_joined_first(words);
        lemma_joined_first(words.push(last));
        let first = words[0];
        let tail = words.drop_first();
        assert(words.push(last)[0] == first);
        assert(words.push(last).drop_first() =~= tail.push(last));
        assert forall|j: int| 0 <= j < tail.len() implies (#[trigger] tail[j]).len() > 0
            && is_solid(tail[j]) by {
            assert(tail[j] == words[j + 1]);
        }
        lemma_split_append(tail, last);
        let after = if tail.len() == 0 {
            e
        } else {
            seq![' '] + joined(tail)
        };
        let after_more = seq![' '] + joined(tail.push(last));
        assert(joined(words) =~= first + after);
        assert(joined(words.push(last)) =~= first + after_more);
        lemma_split_first_word(first, after);
        lemma_split_first_word(first, after_more);
        lemma_split_after_space(after_more);
        assert(after_more.drop_first() =~= joined(tail.push(last)));
        if tail.len() > 0 {
            lemma_split_after_space(after);
            assert(after.drop_first() =~= joined(tail));
        }
        assert(seq![first] + split(joined(tail)).push(last) =~= (seq![first] + split(
            joined(tail),
        )).push(last));
    }
}

/// What two or more words join to begins with the first word and a space.
proof fn lemma_joined_first(words: Seq<Seq<char>>)
    requires
        words.len() > 0,
    ensures
        joined(words) == if words.len() == 1 {
            words[0]
        } else {
            words[0] + seq![' '] + joined(words.drop_first())
        },
    decreases words.len(),
{
    if words.len() > 1 {
        let head = words.drop_last();
        lemma_joined_first(head);
        assert(head[0] == words[0]);
        if words.len() == 2 {
            assert(words.drop_first().len() == 1);
            assert(words.drop_first()[0] == words.last());
            assert(joined(words.drop_first()) == words.last());
        } else {
            assert(head.drop_first() =~= words.drop_first().drop_last());
            assert(words.drop_first().last() == words.last());
            assert(joined(words) =~= words[0] + seq![' '] + joined(words.drop_first()));
        }
    }
}

/// Decoding the phrase of a 32-bit value gives the value back.
pub proof fn round_trip_phrase(value: u32)
    ensures
        u32_of(split(phrase_of_u32(value))) == Ok::<u32, usize>(value),
{
    let bytes = trimmed_bytes(value as nat);
    let words = words_of_u32(value);
    assert forall|j: int| 0 <= j < words.len() implies (#[trigger] words[j]).len() > 0
        && is_solid(words[j]) by {
        lemma_words_solid(bytes, j);
    }
    lemma_split_joined(words);
    round_trip_u32(value);
}

/// Two texts are the same but for the case of their ASCII letters.
pub open spec fn same_letters(a: Seq<char>, b: Seq<char>) -> bool {
    &&& a.len() == b.len()
    &&& forall|j: int| 0 <= j < a.len() ==> ascii_lower(#[trigger] a[j]) == ascii_lower(b[j])
}

/// Two ASCII texts that are the same but for the case of their letters fold to the same text.
pub proof fn lemma_same_letters_folded(a: Seq<char>, b: Seq<char>)
    requires
        is_ascii_chars(a),
        same_letters(a, b),
    ensures
        is_ascii_chars(b),
        folded(a) == folded(b),
{
    assert forall|j: int| 0 <= j < b.len() implies '\0' <= #[trigger] b[j] <= '\u{7f}' by {
        assert(ascii_lower(a[j]) == ascii_lower(b[j]));
        assert('\0' <= a[j] <= '\u{7f}');
    }
    assert forall|j: int| 0 <= j < a.len() implies folded(a)[j] == folded(b)[j] by {
        assert(ascii_lower(a[j]) == ascii_lower(b[j]));
    }
    assert(folded(a) =~= folded(b));
}

/// Decoding looks at a word only through its folded form: two word sequences whose words
/// fold to the same texts decode alike, as bytes and as a 32-bit value.
pub proof fn decoding_by_folded_form(a: Seq<Seq<char>>, b: Seq<Seq<char>>)
    requires
        a.len() == b.len(),
        forall|j: int| 0 <= j < a.len() ==> folded(#[trigger] a[j]) == folded(b[j]),
    ensures
        bytes_of(a) == bytes_of(b),
        value_of(a) == value_of(b),
        u32_of(a) == u32_of(b),
{
    assert forall|i: int| rejected_at(a, i) == rejected_at(b, i) by {
        if 0 <= i < a.len() {
            assert(folded(a[i]) == folded(b[i]));
            if rejected_at(a, i) {
                assert forall|j: int| 0 <= j < i implies byte_of(#[trigger] b[j]) is Some by {
                    assert(folded(a[j]) == folded(b[j]));
                    assert(byte_of(a[j]) is Some);
                }
            }
            if rejected_at(b, i) {
                assert forall|j: int| 0 <= j < i implies byte_of(#[trigger] a[j]) is Some by {
                    assert(folded(a[j]) == folded(b[j]));
                    assert(byte_of(b[j]) is Some);
                }
            }
        }
    }
    if exists|i: int| rejected_at(a, i) {
        let i = choose|i: int| rejected_at(a, i);
        assert(rejected_at(b, i));
        let k = choose|k: int| rejected_at(b, k);
        lemma_rejected_once(b, i, k);
    } else {
        assert forall|i: int| !rejected_at(b, i) by {
            assert(rejected_at(a, i) == rejected_at(b, i));
        }
        assert forall|j: int| 0 <= j < a.len() implies byte_of(a[j]) == byte_of(b[j]) by {
            assert(folded(a[j]) == folded(b[j]));
        }
        assert(a.map_values(|w: Seq<char>| byte_of(w).unwrap()) =~= b.map_values(
            |w: Seq<char>| byte_of(w).unwrap(),
        ));
    }
}

/// The case of letters does not matter: a sequence of ASCII words decodes as any sequence
/// does that is the same but for the case of letters.
pub proof fn case_insensitive(words: Seq<Seq<char>>, recased: Seq<Seq<char>>)
    requires
        words.len() == recased.len(),
        forall|j: int| 0 <= j < words.len() ==> is_ascii_chars(#[trigger] words[j]),
        forall|j: int| 0 <= j < words.len() ==> same_letters(#[trigger] words[j], recased[j]),
    ensures
        bytes_of(recased) == bytes_of(words),
        u32_of(recased) == u32_of(words),
{
    assert forall|j: int| 0 <= j < words.len() implies folded(#[trigger] words[j]) == folded(
        recased[j],
    ) by {
        lemma_same_letters_folded(words[j], recased[j]);
    }
    decoding_by_folded_form(words, recased);
}

/// The words of a byte sequence decode to it whatever case their letters are written in.
pub proof fn round_trip_recased(bytes: Seq<u8>, recased: Seq<Seq<char>>)
    requires
        recased.len() == bytes.len(),
        forall|j: int| 0 <= j < bytes.len() ==> same_letters(word_at(bytes[j]), #[trigger] recased[j]),
    ensures
        bytes_of(recased) == Ok::<Seq<u8>, usize>(bytes),
{
    let words = words_of(bytes);
    assert forall|j: int| 0 <= j < words.len() implies is_ascii_chars(#[trigger] words[j]) by {
        lemma_entry_is_word(bytes[j]);
    }
    assert forall|j: int| 0 <= j < words.len() implies same_letters(
        #[trigger] words[j],
        recased[j],
    ) by {
        assert(same_letters(word_at(bytes[j]), recased[j]));
    }
    case_insensitive(words, recased);
    round_trip_bytes(bytes);
}

/// A word that the dictionary does not hold, after words that it holds, is reported by its
/// position, whatever follows it.
pub proof fn error_index(before: Seq<Seq<char>>, unknown: Seq<char>, after: Seq<Seq<char>>)
    requires
        forall|j: int| 0 <= j < before.len() ==> byte_of(#[trigger] before[j]) is Some,
        byte_of(unknown) is None,
        before.len() <= usize::MAX,
    ensures
        bytes_of(before + seq![unknown] + after) == Err::<Seq<u8>, usize>(before.len() as usize),
        u32_of(before + seq![unknown] + after) == Err::<u32, usize>(before.len() as usize),
{
    let words = before + seq![unknown] + after;
    let at = before.len() as int;
    assert(words[at] == unknown);
    assert forall|j: int| 0 <= j < at implies byte_of(#[trigger] words[j]) is Some by {
        assert(words[j] == before[j]);
    }
    assert(rejected_at(words, at));
    lemma_bytes_of_rejected(words, at);
}

/// More than four words that the dictionary holds are reported by the index 4.
pub proof fn too_many_words(words: Seq<Seq<char>>)
    requires
        words.len() > 4,
        forall|j: int| 0 <= j < words.len() ==> byte_of(#[trigger] words[j]) is Some,
    ensures
        value_of(words) == Err::<u32, DecodeError>(DecodeError::TooManyWords),
        u32_of(words) == Err::<u32, usize>(4),
{
    if exists|i: int| rejected_at(words, i) {
        let i = choose|i: int| rejected_at(words, i);
        assert(byte_of(words[i]) is Some);
    }
}

/// Up to four words that the dictionary holds decode to the value of their bytes, most
/// significant first.
pub proof fn up_to_four_words(bytes: Seq<u8>)
    requires
        bytes.len() <= 4,
    ensures
        be_value(bytes) <= u32::MAX,
        u32_of(words_of(bytes)) == Ok::<u32, usize>(be_value(bytes) as u32),
{
    round_trip_bytes(bytes);
    lemma_be_value_bound(bytes);
}

} // verus!

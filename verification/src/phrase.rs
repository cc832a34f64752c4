//! Phrases: the words of a value joined by single spaces, and a phrase split at runs of
//! whitespace back into words.

use crate::codec::texts;
use crate::integer::{decode_u32, encode_u32, u32_of, words_of_u32};
use crate::span::{char_width, cut, lemma_offset_step, offset};
use vstd::prelude::*;
use vstd::string::*;
use vstd::utf8::encode_utf8;

verus! {

/// Whether a character beyond ASCII has the Unicode property `White_Space`, as the standard
/// library tells it.
pub uninterp spec fn unicode_white_space(c: char) -> bool;

/// Whether a character is whitespace. In ASCII these are the space and the five control
/// characters from the horizontal tab to the carriage return.
pub open spec fn is_space(c: char) -> bool {
    if c <= '\u{7f}' {
        c == ' ' || '\t' <= c <= '\r'
    } else {
        unicode_white_space(c)
    }
}

/// The length of the longest prefix of `text` whose characters are all whitespace, for
/// `spaces`, or all not whitespace, for `!spaces`.
pub open spec fn run(text: Seq<char>, spaces: bool) -> nat
    decreases text.len(),
{
    if text.len() > 0 && is_space(text[0]) == spaces {
        1 + run(text.drop_first(), spaces)
    } else {
        0
    }
}

/// The words of a text: its longest runs of characters that are not whitespace, in order.
/// Whitespace before the first word, between two words and after the last one is dropped,
/// however long it is.
pub open spec fn split(text: Seq<char>) -> Seq<Seq<char>>
    decreases text.len(),
    via split_decreases
{
    let rest = text.skip(run(text, true) as int);
    let n = run(rest, false) as int;
    if n == 0 {
        Seq::empty()
    } else {
        seq![rest.take(n)] + split(rest.skip(n))
    }
}

#[via_fn]
proof fn split_decreases(text: Seq<char>) {
    lemma_run_bound(text, true);
    lemma_run_bound(text.skip(run(text, true) as int), false);
}

/// The words of a sequence with one space between each two of them.
pub open spec fn joined(words: Seq<Seq<char>>) -> Seq<char>
    decreases words.len(),
{
    if words.len() == 0 {
        Seq::empty()
    } else if words.len() == 1 {
        words[0]
    } else {
        joined(words.drop_last()) + seq![' '] + words.last()
    }
}

/// The phrase that stands for a 32-bit value.
pub open spec fn phrase_of_u32(value: u32) -> Seq<char> {
    joined(words_of_u32(value))
}

/// A text without whitespace.
pub open spec fn is_solid(text: Seq<char>) -> bool {
    forall|j: int| 0 <= j < text.len() ==> !is_space(#[trigger] text[j])
}

/// A run is no longer than the text.
pub proof fn lemma_run_bound(text: Seq<char>, spaces: bool)
    ensures
        run(text, spaces) <= text.len(),
    decreases text.len(),
{
    if text.len() > 0 && is_space(text[0]) == spaces {
        lemma_run_bound(text.drop_first(), spaces);
    }
}

/// The text without any character has no words.
pub proof fn lemma_split_empty()
    ensures
        split(Seq::<char>::empty()) == Seq::<Seq<char>>::empty(),
{
    let e = Seq::<char>::empty();
    assert(run(e, true) == 0);
    assert(e.skip(0) =~= e);
    assert(run(e, false) == 0);
}

/// Whitespace at the front of a text does not change its words.
pub proof fn lemma_split_after_space(text: Seq<char>)
    requires
        text.len() > 0,
        is_space(text[0]),
    ensures
        split(text) == split(text.drop_first()),
{
    let tail = text.drop_first();
    lemma_run_bound(tail, true);
    assert(text.skip(run(text, true) as int) =~= tail.skip(run(tail, true) as int));
}

/// A text without whitespace, followed by nothing or by whitespace, is one run.
proof fn lemma_run_of_solid(word: Seq<char>, rest: Seq<char>)
    requires
        is_solid(word),
        rest.len() == 0 || is_space(rest[0]),
    ensures
        run(word + rest, false) == word.len(),
    decreases word.len(),
{
    if word.len() == 0 {
        assert(word + rest =~= rest);
    } else {
        assert((word + rest)[0] == word[0]);
        assert((word + rest).drop_first() =~= word.drop_first() + rest);
        assert forall|j: int| 0 <= j < word.drop_first().len() implies !is_space(
            #[trigger] word.drop_first()[j],
        ) by {
            assert(word.drop_first()[j] == word[j + 1]);
        }
        lemma_run_of_solid(word.drop_first(), rest);
    }
}

/// A text that begins with a word, followed by nothing or by whitespace, has that word as
/// its first, and then the words of what follows.
pub proof fn lemma_split_first_word(word: Seq<char>, rest: Seq<char>)
    requires
        word.len() > 0,
        is_solid(word),
        rest.len() == 0 || is_space(rest[0]),
    ensures
        split(word + rest) == seq![word] + split(rest),
{
    let text = word + rest;
    assert(text[0] == word[0]);
    assert(run(text, true) == 0);
    assert(text.skip(0) =~= text);
    lemma_run_of_solid(word, rest);
    assert(text.take(word.len() as int) =~= word);
    assert(text.skip(word.len() as int) =~= rest);
}

/// Appending a word to one or more words appends a space and the word to what they join to.
pub proof fn lemma_joined_push(words: Seq<Seq<char>>, word: Seq<char>)
    ensures
        joined(words.push(word)) == if words.len() == 0 {
            word
        } else {
            joined(words) + seq![' '] + word
        },
{
    assert(words.push(word).drop_last() =~= words);
}

/// Calls `char::is_whitespace`, and only on characters beyond ASCII. The result is a
/// function of the character alone: the contract gives it a name and claims nothing else
/// of it.
#[verifier::external_body]
fn unicode_space(c: char) -> (space: bool)
    ensures
        space == unicode_white_space(c),
{
    c.is_whitespace()
}

/// Whether a character is whitespace.
pub fn is_whitespace(c: char) -> (space: bool)
    ensures
        space == is_space(c),
{
    if c <= '\u{7f}' {
        c == ' ' || ('\t' <= c && c <= '\r')
    } else {
        unicode_space(c)
    }
}

/// Splits a text at runs of whitespace into its words, in one pass over the text.
pub fn split_words<'a>(text: &'a str) -> (words: Vec<&'a str>)
    ensures
        texts(words@) == split(text@),
{
    let size = text.as_bytes().len();
    let mut words: Vec<&'a str> = Vec::new();
    // Inside a word, `start` is the byte offset at which it began and `open` the position
    // of its first character. `pos` is the byte offset of the next character.
    let mut in_word = false;
    let mut start: usize = 0;
    let mut pos: usize = 0;
    let ghost mut open: int = 0;
    proof {
        assert(text@.skip(0) =~= text@);
        assert(texts(words@) + split(text@) =~= split(text@));
        assert(text@.take(0) =~= Seq::<char>::empty());
    }
    for c in it: text.chars()
        invariant
            it.seq() == text@,
            size == encode_utf8(text@).len(),
            pos == offset(text@, it.index() as int),
            in_word ==> 0 <= open < it.index() && start == offset(text@, open) && is_solid(
                text@.subrange(open, it.index() as int),
            ),
            split(text@) == texts(words@) + split(
                text@.skip(
                    if in_word {
                        open
                    } else {
                        it.index() as int
                    },
                ),
            ),
    {
        let ghost i = it.index() as int;
        let ghost done = texts(words@);
        proof {
            lemma_offset_step(text@, i);
        }
        if is_whitespace(c) {
            proof {
                let tail = text@.skip(i);
                lemma_split_after_space(tail);
                assert(tail.drop_first() =~= text@.skip(i + 1));
            }
            if in_word {
                let word = cut(text, start, pos, Ghost(open), Ghost(i));
                proof {
                    let tail = text@.skip(i);
                    assert(text@.skip(open) =~= word@ + tail);
                    lemma_split_first_word(word@, tail);
                    assert(texts(words@.push(word)) =~= done.push(word@));
                    assert(done + (seq![word@] + split(tail)) =~= done.push(word@) + split(tail));
                }
                words.push(word);
                in_word = false;
            }
        } else {
            if !in_word {
                start = pos;
                in_word = true;
                proof {
                    open = i;
                }
            }
            proof {
                let grown = text@.subrange(open, i + 1);
                assert forall|j: int| 0 <= j < grown.len() implies !is_space(
                    #[trigger] grown[j],
                ) by {
                    if j < i - open {
                        assert(text@.subrange(open, i)[j] == grown[j]);
                    }
                }
            }
        }
        pos += char_width(c);
    }
    proof {
        lemma_split_empty();
        assert(text@.take(text@.len() as int) =~= text@);
    }
    if in_word {
        let word = cut(text, start, size, Ghost(open), Ghost(text@.len() as int));
        proof {
            let done = texts(words@);
            let tail = Seq::<char>::empty();
            assert(text@.skip(open) =~= word@ + tail);
            lemma_split_first_word(word@, tail);
            assert(texts(words@.push(word)) =~= done.push(word@));
            assert(done + (seq![word@] + split(tail)) =~= done.push(word@));
        }
        words.push(word);
    } else {
        proof {
            assert(text@.skip(text@.len() as int) =~= Seq::<char>::empty());
            assert(texts(words@) + Seq::<Seq<char>>::empty() =~= texts(words@));
        }
    }
    words
}

/// Joins words with one space between each two of them.
pub fn join_words(words: &[&str]) -> (phrase: String)
    ensures
        phrase@ == joined(texts(words@)),
{
    let mut phrase = String::new();
    let mut i: usize = 0;
    while i < words.len()
        invariant
            i <= words@.len(),
            phrase@ == joined(texts(words@).take(i as int)),
        decreases words@.len() - i,
    {
        proof {
            reveal_strlit(" ");
            let before = texts(words@).take(i as int);
            assert(texts(words@).take(i + 1) =~= before.push(words@[i as int]@));
            lemma_joined_push(before, words@[i as int]@);
            assert(" "@ =~= seq![' ']);
        }
        if i > 0 {
            phrase.append(" ");
        }
        phrase.append(words[i]);
        i += 1;
    }
    proof {
        assert(texts(words@).take(i as int) =~= texts(words@));
    }
    phrase
}

/// Encodes a 32-bit value as a phrase: its one to four words with a space between each two.
pub fn encode_u32_joined(num: u32) -> (phrase: String)
    ensures
        phrase@ == phrase_of_u32(num),
{
    let words = encode_u32(num);
    join_words(words.as_slice())
}

/// Decodes a phrase to a 32-bit value: splits it at runs of whitespace and decodes the
/// words. The error is an index: the position of the first word that the dictionary does not
/// hold, or 4 where every word is held and there are more than four of them.
pub fn decode_u32_joined(joined: &str) -> (result: Result<u32, usize>)
    ensures
        result == u32_of(split(joined@)),
{
    let words = split_words(joined);
    decode_u32(words.as_slice())
}

} // verus!

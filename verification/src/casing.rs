//! Case folding: words are lowercased before they are looked up, so that a transcription
//! with mixed case still decodes.

use vstd::prelude::*;
use vstd::string::*;
use vstd::utf8::{encode_utf8, is_ascii_chars, is_ascii_chars_encode_utf8};

verus! {

/// The lowercase form of an ASCII letter; any other character is left as it is.
pub open spec fn ascii_lower(c: char) -> char {
    if 'A' <= c <= 'Z' {
        ((c as u8) + 32) as char
    } else {
        c
    }
}

/// The lowercase form of a text by the rules of Unicode, as the standard library computes it.
pub uninterp spec fn unicode_lowercase(text: Seq<char>) -> Seq<char>;

/// The folded form of a text. An ASCII text has its letters `A` to `Z` replaced by `a` to `z`
/// and is otherwise unchanged; any other text is lowercased by the rules of Unicode.
pub open spec fn folded(text: Seq<char>) -> Seq<char> {
    if is_ascii_chars(text) {
        text.map_values(|c: char| ascii_lower(c))
    } else {
        unicode_lowercase(text)
    }
}

/// Folding an ASCII text gives an ASCII text of the same length.
pub proof fn lemma_folded_ascii(text: Seq<char>)
    requires
        is_ascii_chars(text),
    ensures
        is_ascii_chars(folded(text)),
        folded(text).len() == text.len(),
{
    assert forall|i: int| 0 <= i < folded(text).len() implies '\0' <= #[trigger] folded(text)[i]
        <= '\u{7f}' by {
        assert('\0' <= text[i] <= '\u{7f}');
    }
}

/// Calls `str::to_lowercase`. The result is a function of the text alone: the contract gives
/// it a name and claims nothing else of it.
#[verifier::external_body]
fn unicode_lower(text: &str) -> (lower: String)
    ensures
        lower@ == unicode_lowercase(text@),
{
    text.to_lowercase()
}

/// The lowercase form of an ASCII byte.
fn lower_byte(b: u8) -> (lower: u8)
    requires
        b < 128,
    ensures
        lower == ascii_lower(b as char) as u8,
        lower < 128,
{
    if 65 <= b && b <= 90 {
        b + 32
    } else {
        b
    }
}

/// Folds an ASCII text byte by byte.
fn fold_ascii(text: &str) -> (bytes: Vec<u8>)
    requires
        is_ascii_chars(text@),
    ensures
        bytes@ == encode_utf8(folded(text@)),
{
    let source = text.as_bytes();
    proof {
        is_ascii_chars_encode_utf8(text@);
    }
    let mut bytes: Vec<u8> = Vec::new();
    let mut i: usize = 0;
    while i < source.len()
        invariant
            is_ascii_chars(text@),
            source@ == encode_utf8(text@),
            source@.len() == text@.len(),
            forall|j: int| 0 <= j < text@.len() ==> text@[j] as u8 == #[trigger] source@[j],
            i <= source@.len(),
            bytes@.len() == i,
            forall|j: int| 0 <= j < i ==> #[trigger] bytes@[j] == ascii_lower(text@[j]) as u8,
        decreases source@.len() - i,
    {
        let b: u8 = source[i];
        proof {
            assert('\0' <= text@[i as int] <= '\u{7f}');
            assert(b as char == text@[i as int]);
        }
        bytes.push(lower_byte(b));
        i += 1;
    }
    proof {
        lemma_folded_ascii(text@);
        is_ascii_chars_encode_utf8(folded(text@));
        assert forall|j: int| 0 <= j < bytes@.len() implies bytes@[j] == encode_utf8(
            folded(text@),
        )[j] by {
            assert(folded(text@)[j] == ascii_lower(text@[j]));
        }
        assert(bytes@ =~= encode_utf8(folded(text@)));
    }
    bytes
}

/// The UTF-8 bytes of the folded form of a text.
pub fn fold(text: &str) -> (bytes: Vec<u8>)
    ensures
        bytes@ == encode_utf8(folded(text@)),
{
    if text.is_ascii() {
        fold_ascii(text)
    } else {
        let lower = unicode_lower(text);
        lower.as_str().as_bytes_vec()
    }
}

} // verus!

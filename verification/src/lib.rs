//! A reversible mapping between bytes and a fixed dictionary of 256 short words, made to be
//! read aloud, written down and compared by people.
//!
//! A byte sequence is encoded as one word for each byte. A 32-bit value is encoded as the
//! words of its big-endian bytes without leading zero bytes, optionally joined by spaces
//! into a phrase. Decoding ignores the case of letters and reports the position of the first
//! word that the dictionary does not hold.

pub mod casing;
pub mod codec;
pub mod dictionary;
pub mod integer;
pub mod laws;
pub mod lookup;
pub mod order;
pub mod phrase;
pub mod span;

pub use codec::{decode_bytes, encode_bytes};
pub use integer::{decode_u32, decode_value, encode_u32, DecodeError};
pub use lookup::{byte_for_word, find, word_for_byte, words};
pub use phrase::{decode_u32_joined, encode_u32_joined, join_words, split_words};

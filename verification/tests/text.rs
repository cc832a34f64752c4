use wordcode::casing::fold;
use wordcode::phrase::is_whitespace;
use wordcode::span::char_width;
use wordcode::{
    byte_for_word, decode_bytes, decode_u32, decode_u32_joined, decode_value, join_words,
    split_words, DecodeError,
};

#[test]
fn fold_lowers_ascii_letters_only() {
    assert_eq!(fold("TRUE"), b"true".to_vec());
    assert_eq!(fold("taBLE"), b"table".to_vec());
    assert_eq!(fold("already lower"), b"already lower".to_vec());
    assert_eq!(fold(""), Vec::<u8>::new());
    assert_eq!(fold("@[`{AZ az 09"), b"@[`{az az 09".to_vec());
}

#[test]
fn fold_is_the_lowercase_form_of_ascii() {
    for code in 0..128u8 {
        let text = (code as char).to_string();
        assert_eq!(fold(&text), text.to_lowercase().into_bytes());
        assert_eq!(fold(&text), text.to_ascii_lowercase().into_bytes());
    }
    let all: String = (0..128u8).map(|c| c as char).collect();
    assert_eq!(fold(&all), all.to_lowercase().into_bytes());
}

#[test]
fn fold_lowercases_beyond_ascii() {
    assert_eq!(fold("ÄBLE"), "äble".as_bytes().to_vec());
    assert_eq!(fold("ΣΊΣΥΦΟΣ"), "σίσυφος".as_bytes().to_vec());
    assert_eq!(fold("\u{212A}ING"), b"king".to_vec());
    assert_eq!(fold("İ"), "i\u{307}".as_bytes().to_vec());
    assert_eq!(fold("越"), "越".as_bytes().to_vec());
}

#[test]
fn words_beyond_ascii_are_lowercased_before_the_lookup() {
    // The Kelvin sign is not ASCII and has the lowercase form `k`.
    assert_eq!(byte_for_word("\u{212A}ing"), byte_for_word("king"));
    assert_eq!(byte_for_word("\u{212A}ING"), byte_for_word("king"));
    assert!(byte_for_word("king").is_some());
    assert_eq!(
        decode_bytes(&["\u{212A}ITE", "\u{212A}ey"]),
        decode_bytes(&["kite", "key"])
    );
    assert!(decode_bytes(&["kite", "key"]).is_ok());
    assert_eq!(decode_bytes(&["able", "ÄBLE"]), Err(1));
}

#[test]
fn whitespace_is_what_the_standard_library_calls_whitespace() {
    for code in 0..=0x10FFFFu32 {
        if let Some(c) = char::from_u32(code) {
            assert_eq!(is_whitespace(c), c.is_whitespace(), "U+{:04X}", code);
        }
    }
}

#[test]
fn ascii_whitespace() {
    for c in [' ', '\t', '\n', '\u{b}', '\u{c}', '\r'] {
        assert!(is_whitespace(c));
    }
    for c in ['\0', '\u{8}', '\u{e}', '\u{1c}', '\u{1f}', '!', 'a', 'Z', '_', '\u{7f}'] {
        assert!(!is_whitespace(c));
    }
}

#[test]
fn whitespace_beyond_ascii() {
    for c in ['\u{85}', '\u{a0}', '\u{1680}', '\u{2009}', '\u{2028}', '\u{3000}'] {
        assert!(is_whitespace(c));
    }
    for c in ['\u{200b}', '越', 'é', '\u{feff}'] {
        assert!(!is_whitespace(c));
    }
}

#[test]
fn split_words_drops_runs_of_whitespace() {
    assert_eq!(split_words(""), Vec::<&str>::new());
    assert_eq!(split_words(" "), Vec::<&str>::new());
    assert_eq!(split_words(" \t\r\n "), Vec::<&str>::new());
    assert_eq!(split_words("able"), vec!["able"]);
    assert_eq!(split_words(" able"), vec!["able"]);
    assert_eq!(split_words("able "), vec!["able"]);
    assert_eq!(split_words("a b"), vec!["a", "b"]);
    assert_eq!(split_words("  a  b  "), vec!["a", "b"]);
    assert_eq!(
        split_words("Mary had\ta\u{2009}little  \n\t lamb"),
        vec!["Mary", "had", "a", "little", "lamb"]
    );
    assert_eq!(split_words("é\u{a0}越\u{3000}ö"), vec!["é", "越", "ö"]);
}

#[test]
fn split_words_is_split_whitespace() {
    for text in [
        "",
        " ",
        "table potato school true",
        "  leading",
        "trailing  ",
        "\ttabs\tand\nnewlines\r\n",
        "one",
        "\u{b}vertical\u{c}feed",
        "thin\u{2009}space and\u{a0}no-break",
        "a\u{1c}b\u{1f}c",
        "é è\tê",
    ] {
        let expected: Vec<&str> = text.split_whitespace().collect();
        assert_eq!(split_words(text), expected);
    }
}

#[test]
fn join_words_puts_one_space_between() {
    assert_eq!(join_words(&[]), "");
    assert_eq!(join_words(&["able"]), "able");
    assert_eq!(join_words(&["ant", "stamp"]), "ant stamp");
    assert_eq!(join_words(&["a", "", "b"]), "a  b");
    let words = ["table", "potato", "school", "true"];
    assert_eq!(join_words(&words), words.join(" "));
}

#[test]
fn splitting_undoes_joining() {
    let words = vec!["table", "potato", "school", "true", "zoo"];
    for n in 0..=words.len() {
        let phrase = join_words(&words[..n]);
        assert_eq!(split_words(&phrase), words[..n].to_vec());
    }
}

#[test]
fn phrases_with_whitespace_beyond_ascii() {
    assert_eq!(decode_u32_joined("ant\u{2009}stamp"), Ok(1234));
    assert_eq!(decode_u32_joined("\u{3000}ant\u{a0}\u{a0}stamp\u{85}"), Ok(1234));
    // A zero-width space is no whitespace: the phrase is one unknown word.
    assert_eq!(decode_u32_joined("ant\u{200b}stamp"), Err(0));
}

#[test]
fn tagged_errors() {
    assert_eq!(decode_value(&["ant", "stamp"]), Ok(1234));
    assert_eq!(decode_value(&[]), Ok(0));
    assert_eq!(decode_value(&["nonsense"]), Err(DecodeError::InvalidWord(0)));
    assert_eq!(
        decode_value(&["able", "able", "able", "able", "nonsense"]),
        Err(DecodeError::InvalidWord(4))
    );
    assert_eq!(
        decode_value(&["able", "able", "able", "able", "able"]),
        Err(DecodeError::TooManyWords)
    );
    assert_eq!(
        decode_value(&["able", "able", "able", "able", "able", "nonsense"]),
        Err(DecodeError::InvalidWord(5))
    );
}

#[test]
fn error_indices() {
    assert_eq!(DecodeError::InvalidWord(0).index(), 0);
    assert_eq!(DecodeError::InvalidWord(4).index(), 4);
    assert_eq!(DecodeError::InvalidWord(17).index(), 17);
    assert_eq!(DecodeError::TooManyWords.index(), 4);
    for words in [
        vec!["nonsense"],
        vec!["able", "able", "able", "able", "able"],
        vec!["able", "x", "able", "able", "able", "able"],
    ] {
        assert_eq!(decode_u32(&words), decode_value(&words).map_err(|e| e.index()));
    }
}

#[test]
fn char_width_is_the_length_in_utf8() {
    for code in 0..=0x10FFFFu32 {
        if let Some(c) = char::from_u32(code) {
            assert_eq!(char_width(c), c.len_utf8(), "U+{:04X}", code);
        }
    }
}

#[test]
fn split_words_of_texts_beyond_ascii() {
    assert_eq!(split_words("äöü"), vec!["äöü"]);
    assert_eq!(split_words("\u{3000}越\u{3000}"), vec!["越"]);
    assert_eq!(split_words("a\u{2009}😀b\u{85}c😀"), vec!["a", "😀b", "c😀"]);
    assert_eq!(split_words("😀"), vec!["😀"]);
    assert_eq!(split_words("\u{a0}"), Vec::<&str>::new());
}

#[test]
fn split_words_of_a_long_text() {
    let mut text = String::new();
    let mut expected: Vec<String> = Vec::new();
    for i in 0..20_000u32 {
        let word = match i % 4 {
            0 => format!("w{}", i),
            1 => format!("é{}ö", i),
            2 => format!("越{}", i),
            _ => format!("{}😀", i),
        };
        text.push_str(&word);
        text.push_str(match i % 5 {
            0 => " ",
            1 => "\t\n",
            2 => "\u{a0}",
            3 => "  \u{3000} ",
            _ => "\r\n",
        });
        expected.push(word);
    }
    let words = split_words(&text);
    assert_eq!(words.len(), expected.len());
    assert_eq!(words, expected);
    assert_eq!(words, text.split_whitespace().collect::<Vec<&str>>());
}

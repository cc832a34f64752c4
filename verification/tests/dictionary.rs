use wordcode::dictionary::WORDS;
use wordcode::order::{compare, Rank};
use wordcode::{byte_for_word, find, word_for_byte, words};

#[test]
fn table_has_256_words() {
    assert_eq!(words().len(), 256);
    assert_eq!(WORDS.len(), 256);
    assert_eq!(words(), WORDS.to_vec());
}

#[test]
fn words_are_short_lowercase_letters() {
    for word in words() {
        assert!(!word.is_empty());
        assert!(word.len() < 7);
        assert!(word.chars().all(|c| c.is_ascii_lowercase()));
    }
}

#[test]
fn table_is_sorted_and_has_no_duplicates() {
    let table = words();
    for pair in table.windows(2) {
        assert!(pair[0] < pair[1]);
    }
    let mut sorted = table.clone();
    sorted.sort();
    sorted.dedup();
    assert_eq!(sorted, table);
}

#[test]
fn known_entries() {
    assert_eq!(word_for_byte(0), "able");
    assert_eq!(word_for_byte(4), "ant");
    assert_eq!(word_for_byte(5), "apple");
    assert_eq!(word_for_byte(0xAD), "potato");
    assert_eq!(word_for_byte(0xBE), "school");
    assert_eq!(word_for_byte(0xD2), "stamp");
    assert_eq!(word_for_byte(0xDE), "table");
    assert_eq!(word_for_byte(0xEF), "true");
    assert_eq!(word_for_byte(255), "zoo");
}

#[test]
fn lookups_are_inverse() {
    for b in 0..=255u8 {
        let word = word_for_byte(b);
        assert_eq!(word, WORDS[b as usize]);
        assert_eq!(byte_for_word(word), Some(b));
        assert_eq!(byte_for_word(&word.to_uppercase()), Some(b));
    }
}

#[test]
fn lookup_agrees_with_a_search_of_the_table() {
    let table = words();
    for probe in [
        "", "a", "able", "ablf", "abld", "abl", "ables", "zoo", "zop", "zon", "zzzzzz", "aaaaaa",
        "potato", "potat", "potatoe", "true", "TRUE", "tru", "truely", "{", "`", "0", "~",
    ] {
        let lower = probe.to_lowercase();
        let expected = table.binary_search(&lower.as_str()).ok().map(|i| i as u8);
        assert_eq!(byte_for_word(probe), expected);
    }
}

#[test]
fn unknown_words_have_no_byte() {
    assert_eq!(byte_for_word("nonsense"), None);
    assert_eq!(byte_for_word(""), None);
    assert_eq!(byte_for_word("not-a-word"), None);
    assert_eq!(byte_for_word("able "), None);
    assert_eq!(byte_for_word("ab le"), None);
    assert_eq!(byte_for_word("äble"), None);
    assert_eq!(byte_for_word("zoö"), None);
}

#[test]
fn compare_orders_byte_strings() {
    assert_eq!(compare(b"", b""), Rank::Same);
    assert_eq!(compare(b"", b"a"), Rank::Before);
    assert_eq!(compare(b"a", b""), Rank::After);
    assert_eq!(compare(b"able", b"able"), Rank::Same);
    assert_eq!(compare(b"able", b"about"), Rank::Before);
    assert_eq!(compare(b"about", b"able"), Rank::After);
    assert_eq!(compare(b"ant", b"anthem"), Rank::Before);
    assert_eq!(compare(b"anthem", b"ant"), Rank::After);
    assert_eq!(compare(&[0xff], &[0x00, 0x01]), Rank::After);
}

#[test]
fn compare_agrees_with_the_order_of_strings() {
    let samples = ["", "a", "ab", "abc", "abd", "b", "ba", "zoo", "é", "z", "Z", "~"];
    for a in samples {
        for b in samples {
            let expected = if a < b {
                Rank::Before
            } else if a == b {
                Rank::Same
            } else {
                Rank::After
            };
            assert_eq!(compare(a.as_bytes(), b.as_bytes()), expected);
        }
    }
}

#[test]
fn find_matches_exact_bytes_only() {
    assert_eq!(find(b"able"), Some(0));
    assert_eq!(find(b"ant"), Some(4));
    assert_eq!(find(b"true"), Some(0xEF));
    assert_eq!(find(b"zoo"), Some(255));
    assert_eq!(find(b"TRUE"), None);
    assert_eq!(find(b"True"), None);
    assert_eq!(find(b""), None);
    assert_eq!(find(b"tru"), None);
    assert_eq!(find(b"truer"), None);
    assert_eq!(find(&[0xff, 0xfe]), None);
    for b in 0..=255u8 {
        assert_eq!(find(word_for_byte(b).as_bytes()), Some(b));
    }
}

use wordcode::integer::fold_bytes;
use wordcode::{
    decode_bytes, decode_u32, decode_u32_joined, encode_bytes, encode_u32, encode_u32_joined,
};

#[test]
fn test_encode() {
    assert_eq!(encode_bytes(&[]), Vec::<&str>::new());
    assert_eq!(
        encode_u32(0xDEADBEEF).join(" "),
        "table potato school true".to_string()
    );
    assert_eq!(encode_u32(1234).join(" "), "ant stamp".to_string());
    assert_eq!(encode_u32(5).join(" "), "apple".to_string());
    assert_eq!(encode_u32(0).join(" "), "able".to_string());
}

#[test]
fn test_decode() {
    assert_eq!(decode_bytes(&[]).unwrap(), vec![]);
    assert_eq!(
        decode_bytes(&["taBLE", "potato", "school", "TRUE"]).unwrap(),
        vec![0xDE, 0xAD, 0xBE, 0xEF]
    );
    assert_eq!(decode_u32(&["ant", "stamp"]).unwrap(), 1234);
    assert_eq!(
        decode_u32_joined("table potato school true").unwrap(),
        0xDEADBEEF
    );
}

#[test]
fn test_decode_failure() {
    assert_eq!(decode_bytes(&["nonsense"]), Err(0));
    assert_eq!(
        decode_u32(&["table", "potato", "school", "true", "true"]),
        Err(4)
    );
}

#[test]
fn every_byte_round_trips() {
    let bytes: Vec<u8> = (0..=255u8).collect();
    let words = encode_bytes(&bytes);
    assert_eq!(words.len(), 256);
    assert_eq!(decode_bytes(&words), Ok(bytes));
}

#[test]
fn byte_sequences_round_trip() {
    let mut state: u32 = 0x2545_f491;
    for len in 0..40usize {
        let mut bytes = Vec::new();
        for _ in 0..len {
            state = state.wrapping_mul(1_664_525).wrapping_add(1_013_904_223);
            bytes.push((state >> 24) as u8);
        }
        let words = encode_bytes(&bytes);
        assert_eq!(words.len(), bytes.len());
        assert_eq!(decode_bytes(&words), Ok(bytes));
    }
}

#[test]
fn encode_bytes_keeps_order_and_repeats() {
    assert_eq!(encode_bytes(&[5, 0, 5, 4]), vec!["apple", "able", "apple", "ant"]);
    assert_eq!(encode_bytes(&[0, 0]), vec!["able", "able"]);
    assert_eq!(encode_bytes(&[255]), vec!["zoo"]);
}

#[test]
fn integers_round_trip() {
    let samples: [u32; 18] = [
        0,
        1,
        5,
        255,
        256,
        257,
        1234,
        0xFFFF,
        0x1_0000,
        0x1_0001,
        0xFF_FFFF,
        0x100_0000,
        0x100_0001,
        0x0100_0000,
        0x00FF_00FF,
        0xDEAD_BEEF,
        u32::MAX - 1,
        u32::MAX,
    ];
    for n in samples {
        let words = encode_u32(n);
        assert_eq!(decode_u32(&words), Ok(n));
        assert_eq!(decode_u32_joined(&encode_u32_joined(n)), Ok(n));
    }
}

#[test]
fn integer_word_counts() {
    assert_eq!(encode_u32(0).len(), 1);
    assert_eq!(encode_u32(5).len(), 1);
    assert_eq!(encode_u32(255).len(), 1);
    assert_eq!(encode_u32(256).len(), 2);
    assert_eq!(encode_u32(0xFFFF).len(), 2);
    assert_eq!(encode_u32(0x1_0000).len(), 3);
    assert_eq!(encode_u32(0xFF_FFFF).len(), 3);
    assert_eq!(encode_u32(0x100_0000).len(), 4);
    assert_eq!(encode_u32(u32::MAX).len(), 4);
}

#[test]
fn only_leading_zero_bytes_are_dropped() {
    // 0x0100_0000 keeps its three trailing zero bytes.
    assert_eq!(encode_u32(0x0100_0000), vec!["about", "able", "able", "able"]);
    // 0x0001_0000 loses one leading zero byte and keeps two trailing ones.
    assert_eq!(encode_u32(0x0001_0000), vec!["about", "able", "able"]);
    assert_eq!(encode_u32(0x0000_0100), vec!["about", "able"]);
    assert_eq!(encode_u32(0x0001_0001), vec!["about", "able", "about"]);
}

#[test]
fn exact_words_of_integers() {
    assert_eq!(encode_u32(0), vec!["able"]);
    assert_eq!(encode_u32(5), vec!["apple"]);
    assert_eq!(encode_u32(1234), vec!["ant", "stamp"]);
    assert_eq!(
        encode_u32(0xDEAD_BEEF),
        vec!["table", "potato", "school", "true"]
    );
    assert_eq!(encode_u32(u32::MAX), vec!["zoo", "zoo", "zoo", "zoo"]);
}

#[test]
fn joined_phrases() {
    assert_eq!(encode_u32_joined(0), "able");
    assert_eq!(encode_u32_joined(1234), "ant stamp");
    assert_eq!(encode_u32_joined(0xDEAD_BEEF), "table potato school true");
    assert_eq!(encode_u32_joined(0xDEAD_BEEF), encode_u32(0xDEAD_BEEF).join(" "));
}

#[test]
fn decoding_folds_big_endian() {
    assert_eq!(decode_u32(&["about", "able"]), Ok(256));
    assert_eq!(decode_u32(&["able", "about"]), Ok(1));
    assert_eq!(decode_u32(&["able", "able", "able", "about"]), Ok(1));
    assert_eq!(decode_u32(&["about", "able", "able", "able"]), Ok(0x0100_0000));
    assert_eq!(decode_u32(&["zoo", "zoo", "zoo", "zoo"]), Ok(u32::MAX));
    assert_eq!(decode_u32(&["apple"]), Ok(5));
}

#[test]
fn no_words_decode_to_zero() {
    assert_eq!(decode_u32(&[]), Ok(0));
    assert_eq!(decode_u32_joined(""), Ok(0));
    assert_eq!(decode_u32_joined("   \t\n"), Ok(0));
}

#[test]
fn case_of_letters_does_not_matter() {
    let canonical = ["table", "potato", "school", "true"];
    let variants: [[&str; 4]; 4] = [
        ["TABLE", "POTATO", "SCHOOL", "TRUE"],
        ["Table", "Potato", "School", "True"],
        ["tAbLe", "pOtAtO", "sChOoL", "tRuE"],
        ["tablE", "potatO", "schooL", "truE"],
    ];
    let expected = decode_bytes(&canonical);
    assert_eq!(expected, Ok(vec![0xDE, 0xAD, 0xBE, 0xEF]));
    for v in variants {
        assert_eq!(decode_bytes(&v), expected);
        assert_eq!(decode_u32(&v), Ok(0xDEAD_BEEF));
        assert_eq!(decode_u32_joined(&v.join(" ")), Ok(0xDEAD_BEEF));
    }
    assert_eq!(decode_bytes(&["NONSENSE"]), Err(0));
    assert_eq!(decode_bytes(&["nonsense"]), Err(0));
}

#[test]
fn error_is_the_position_of_the_first_bad_word() {
    assert_eq!(decode_bytes(&["not-a-word"]), Err(0));
    assert_eq!(decode_bytes(&["table", "not-a-word"]), Err(1));
    assert_eq!(decode_bytes(&["table", "potato", "not-a-word", "true"]), Err(2));
    assert_eq!(
        decode_bytes(&["table", "potato", "school", "true", "ant", "not-a-word", "apple"]),
        Err(5)
    );
    // Only the first bad word counts.
    assert_eq!(decode_bytes(&["able", "bad", "worse"]), Err(1));
    assert_eq!(decode_bytes(&["", "able"]), Err(0));
    assert_eq!(decode_bytes(&["able", " able"]), Err(1));
    assert_eq!(decode_bytes(&["able", "ables"]), Err(1));
    assert_eq!(decode_bytes(&["abl"]), Err(0));
}

#[test]
fn integer_decoding_passes_the_position_on() {
    assert_eq!(decode_u32(&["nonsense"]), Err(0));
    assert_eq!(decode_u32(&["table", "nonsense"]), Err(1));
    assert_eq!(decode_u32(&["table", "potato", "school", "nonsense"]), Err(3));
    assert_eq!(decode_u32_joined("table nonsense school"), Err(1));
}

#[test]
fn more_than_four_words_give_four() {
    assert_eq!(decode_u32(&["able", "able", "able", "able", "able"]), Err(4));
    assert_eq!(
        decode_u32(&["table", "potato", "school", "true", "ant", "apple", "zoo"]),
        Err(4)
    );
    assert_eq!(decode_u32_joined("table potato school true true"), Err(4));
}

#[test]
fn a_bad_word_is_reported_before_the_count() {
    // A bad word at position 4 gives the same index as too many words.
    assert_eq!(decode_u32(&["able", "able", "able", "able", "nonsense"]), Err(4));
    // A bad word beyond position 4 is reported by its own position.
    assert_eq!(
        decode_u32(&["able", "able", "able", "able", "able", "able", "nonsense"]),
        Err(6)
    );
    assert_eq!(decode_u32(&["nonsense", "able", "able", "able", "able"]), Err(0));
}

#[test]
fn phrases_split_at_any_whitespace() {
    assert_eq!(decode_u32_joined("ant stamp"), Ok(1234));
    assert_eq!(decode_u32_joined("  ant   stamp  "), Ok(1234));
    assert_eq!(decode_u32_joined("ant\tstamp"), Ok(1234));
    assert_eq!(decode_u32_joined("ant\nstamp\n"), Ok(1234));
    assert_eq!(decode_u32_joined("\r\nant \t \r\n stamp"), Ok(1234));
    assert_eq!(decode_u32_joined("Ant STAMP"), Ok(1234));
    assert_eq!(decode_u32_joined("antstamp"), Err(0));
}

#[test]
fn fold_bytes_is_big_endian() {
    assert_eq!(fold_bytes(&[]), 0);
    assert_eq!(fold_bytes(&[7]), 7);
    assert_eq!(fold_bytes(&[1, 0]), 256);
    assert_eq!(fold_bytes(&[0x04, 0xD2]), 1234);
    assert_eq!(fold_bytes(&[0, 0, 0x04, 0xD2]), 1234);
    assert_eq!(fold_bytes(&[0xDE, 0xAD, 0xBE, 0xEF]), 0xDEAD_BEEF);
    assert_eq!(fold_bytes(&[0xFF, 0xFF, 0xFF, 0xFF]), u32::MAX);
    // Of more than four bytes the last four count.
    assert_eq!(fold_bytes(&[0x12, 0xDE, 0xAD, 0xBE, 0xEF]), 0xDEAD_BEEF);
    assert_eq!(fold_bytes(&[1, 0, 0, 0, 0]), 0);
}

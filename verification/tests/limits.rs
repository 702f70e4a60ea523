use randomizer::{Charset, Error, Randomizer, StrictLimit};

#[test]
fn byte_limit_gives_exact_length_for_single_bytes() {
    let bytes = Randomizer::new(16, Some(Charset::AnyByte))
        .with_strict_limit(StrictLimit::ByteLimit)
        .bytes()
        .unwrap();
    assert_eq!(bytes.len(), 16);
    let bytes = Randomizer::new_with_separator(7, Some("abc"), "-")
        .with_strict_limit(StrictLimit::ByteLimit)
        .bytes()
        .unwrap();
    assert_eq!(bytes.len(), 7);
}

#[test]
fn byte_limit_counts_the_separator() {
    let text = Randomizer::new_with_separator(6, Some("u"), " ")
        .with_strict_limit(StrictLimit::ByteLimit)
        .string()
        .unwrap();
    assert_eq!(text, "u u u ");
    let text = Randomizer::new_with_separator(5, Some("u"), " ")
        .with_strict_limit(StrictLimit::ByteLimit)
        .string()
        .unwrap();
    assert_eq!(text, "u u u");
}

#[test]
fn byte_limit_overshoots_by_less_than_the_widest_piece() {
    let text = Randomizer::new(2, Some(vec!["foo"]))
        .with_strict_limit(StrictLimit::ByteLimit)
        .string()
        .unwrap();
    assert_eq!(text, "foo");
    let text = Randomizer::new_with_separator(4, Some(vec!["ab"]), " ")
        .with_strict_limit(StrictLimit::ByteLimit)
        .string()
        .unwrap();
    assert_eq!(text, "ab ab");
    let bytes = Randomizer::new_with_separator(10, Some(vec!["abc", "de"]), "::")
        .with_strict_limit(StrictLimit::ByteLimit)
        .bytes()
        .unwrap();
    assert!(bytes.len() >= 10 && bytes.len() < 13);
}

#[test]
fn string_limit_counts_characters_not_bytes() {
    let text = Randomizer::new(6, Some("ó❤⚙"))
        .with_strict_limit(StrictLimit::StringLimit)
        .string()
        .unwrap();
    assert_eq!(text.chars().count(), 6);
    assert!(text.len() >= 12 && text.len() <= 18);
    assert!(text.chars().all(|c| "ó❤⚙".contains(c)));
    let text = Randomizer::new(9, Some("⚙"))
        .with_strict_limit(StrictLimit::StringLimit)
        .string()
        .unwrap();
    assert_eq!(text, "⚙⚙⚙⚙⚙⚙⚙⚙⚙");
    assert_eq!(text.len(), 27);
}

#[test]
fn string_limit_output_is_text() {
    let block = Randomizer::new_with_separator(8, Some(vec!["żółw", "a"]), "→")
        .with_strict_limit(StrictLimit::StringLimit)
        .rand()
        .unwrap();
    let text = String::from_utf8(block.inner().clone()).unwrap();
    assert!(text.chars().count() >= 8 && text.chars().count() < 12);
}

#[test]
fn string_limit_separator_can_overshoot() {
    let text = Randomizer::new_with_separator(2, Some("u"), "--")
        .with_strict_limit(StrictLimit::StringLimit)
        .string()
        .unwrap();
    assert_eq!(text, "u--");
    let text = Randomizer::new_with_separator(4, Some("u"), "--")
        .with_strict_limit(StrictLimit::StringLimit)
        .string()
        .unwrap();
    assert_eq!(text, "u--u");
}

#[test]
fn string_limit_with_one_character_separator_is_exact() {
    let text = Randomizer::new_with_separator(7, Some("ó❤⚙"), "·")
        .with_strict_limit(StrictLimit::StringLimit)
        .string()
        .unwrap();
    assert_eq!(text.chars().count(), 7);
    let chars: Vec<char> = text.chars().collect();
    assert_eq!(chars[1], '·');
    assert_eq!(chars[3], '·');
    assert_eq!(chars[5], '·');
    assert!(chars[6] != '·');
}

#[test]
fn token_count_ignores_token_width() {
    let text = Randomizer::new(6, Some(vec!["foo", "bar"])).string().unwrap();
    assert_eq!(text.chars().count(), 18);
    let chunks: Vec<char> = text.chars().collect();
    for chunk in chunks.chunks(3) {
        let word: String = chunk.iter().collect();
        assert!(word == "foo" || word == "bar");
    }
}

#[test]
fn token_count_joins_with_separator() {
    let text = Randomizer::new_with_separator(3, Some(vec!["ab"]), ", ")
        .string()
        .unwrap();
    assert_eq!(text, "ab, ab, ab");
    let text = Randomizer::new_with_separator(1, Some(vec!["ab"]), ", ")
        .string()
        .unwrap();
    assert_eq!(text, "ab");
    let text = Randomizer::new_with_separator(5, Some("xyz"), "--")
        .string()
        .unwrap();
    assert_eq!(text.len(), 5 + 4 * 2);
    assert_eq!(text.matches("--").count(), 4);
    assert!(!text.ends_with("--"));
    assert!(!text.starts_with("--"));
}

#[test]
fn token_count_of_characters_and_separator() {
    let text = Randomizer::new_with_separator(4, Some("ó❤⚙"), "<>")
        .string()
        .unwrap();
    assert_eq!(text.chars().count(), 4 + 3 * 2);
}

#[test]
fn single_token_is_repeated() {
    let text = Randomizer::new(6, Some("u")).string().unwrap();
    assert_eq!(text, "uuuuuu");
    let text = Randomizer::new(6, Some("u"))
        .with_strict_limit(StrictLimit::ByteLimit)
        .string()
        .unwrap();
    assert_eq!(text, "uuuuuu");
    let text = Randomizer::new(3, Some(vec!["ab"])).string().unwrap();
    assert_eq!(text, "ababab");
    let text = Randomizer::new(1, Some(vec!["abc"]))
        .with_strict_limit(StrictLimit::ByteLimit)
        .string()
        .unwrap();
    assert_eq!(text, "abc");
    let bytes = Randomizer::new(4, Some(&[7u8][..])).bytes().unwrap();
    assert_eq!(bytes, vec![7u8, 7, 7, 7]);
}

#[test]
fn single_wide_token_under_byte_limit_is_not_repeated_target_times() {
    let text = Randomizer::new(3, Some(vec!["ab"]))
        .with_strict_limit(StrictLimit::ByteLimit)
        .string()
        .unwrap();
    assert_eq!(text, "abab");
}

#[test]
fn zero_length_gives_an_empty_output() {
    for limit in [StrictLimit::ByteLimit, StrictLimit::StringLimit, StrictLimit::Unbounded] {
        let bytes = Randomizer::new_with_separator(0, Some("abc"), "-")
            .with_strict_limit(limit)
            .bytes()
            .unwrap();
        assert!(bytes.is_empty());
        let bytes = Randomizer::new(0, Some(Vec::<String>::new()))
            .with_strict_limit(limit)
            .bytes()
            .unwrap();
        assert!(bytes.is_empty());
    }
}

#[test]
fn empty_pool_fails_with_overflow_underflow() {
    for limit in [StrictLimit::ByteLimit, StrictLimit::StringLimit, StrictLimit::Unbounded] {
        for length in [1usize, 2, 6, 1000] {
            let failed = Randomizer::new(length, Some(Vec::<String>::new()))
                .with_strict_limit(limit)
                .rand();
            assert!(matches!(failed, Err(Error::OverflowUnderflow(_))));
            let failed = Randomizer::new(length, Some("")).with_strict_limit(limit).string();
            assert!(matches!(failed, Err(Error::OverflowUnderflow(_))));
            let failed = Randomizer::new(length, Some(Charset::Bytes(Vec::new())))
                .with_strict_limit(limit)
                .bytes();
            assert!(matches!(failed, Err(Error::OverflowUnderflow(_))));
            let failed = Randomizer::new(length, Some(Charset::ByteSets(Vec::new())))
                .with_strict_limit(limit)
                .bytes();
            assert!(matches!(failed, Err(Error::OverflowUnderflow(_))));
        }
    }
}

#[test]
fn overflow_underflow_carries_its_message() {
    match Randomizer::new(1, Some("")).rand() {
        Err(Error::OverflowUnderflow(message)) => {
            assert_eq!(message, "Getting string cause overflow/underflow")
        }
        _ => panic!("an empty pool must fail"),
    }
}

#[test]
fn empty_token_stalls_a_strict_limit() {
    let failed = Randomizer::new(1, Some(Charset::ByteSets(vec![vec![]])))
        .with_strict_limit(StrictLimit::ByteLimit)
        .rand();
    assert!(matches!(failed, Err(Error::CharsetMismatch(_))));
    let failed = Randomizer::new(3, Some(vec![""]))
        .with_strict_limit(StrictLimit::StringLimit)
        .string();
    assert!(matches!(failed, Err(Error::CharsetMismatch(_))));
    let failed = Randomizer::new_with_separator(3, Some(vec![""]), "")
        .with_strict_limit(StrictLimit::ByteLimit)
        .string();
    assert!(matches!(failed, Err(Error::CharsetMismatch(_))));
}

#[test]
fn empty_token_with_separator_advances() {
    let text = Randomizer::new_with_separator(3, Some(vec![""]), "-")
        .with_strict_limit(StrictLimit::ByteLimit)
        .string()
        .unwrap();
    assert_eq!(text, "---");
    let text = Randomizer::new_with_separator(3, Some(vec![""]), "-")
        .string()
        .unwrap();
    assert_eq!(text, "--");
    let bytes = Randomizer::new(3, Some(Charset::ByteSets(vec![vec![]])))
        .bytes()
        .unwrap();
    assert!(bytes.is_empty());
}

#[test]
fn bytes_that_are_not_text_fail_where_characters_are_counted() {
    let failed = Randomizer::new(1, Some(Charset::Bytes(vec![0xff])))
        .with_strict_limit(StrictLimit::StringLimit)
        .rand();
    assert!(matches!(failed, Err(Error::ByteConversionFailedForUTF8(_))));
    let failed = Randomizer::new_with_separator(2, Some("u"), vec![0xc3u8])
        .with_strict_limit(StrictLimit::StringLimit)
        .bytes();
    assert!(matches!(failed, Err(Error::ByteConversionFailedForUTF8(_))));
    let split = Randomizer::new(2, Some(Charset::ByteSets(vec![vec![0xc3], vec![0xa9]])))
        .with_strict_limit(StrictLimit::StringLimit)
        .rand();
    assert!(matches!(split, Err(Error::ByteConversionFailedForUTF8(_))));
}

#[test]
fn bytes_that_are_not_text_fail_to_convert() {
    let randomizer = Randomizer::new(4, Some(Charset::Bytes(vec![0xff])));
    assert_eq!(randomizer.bytes().unwrap(), vec![0xffu8; 4]);
    assert!(matches!(randomizer.string(), Err(Error::ByteConversionFailedForUTF8(_))));
    let randomizer = Randomizer::new(4, Some(Charset::Bytes(vec![0xff])))
        .with_strict_limit(StrictLimit::ByteLimit);
    assert!(matches!(randomizer.string(), Err(Error::ByteConversionFailedForUTF8(_))));
}

#[test]
fn any_byte_never_draws_255() {
    let bytes = Randomizer::new::<Charset>(4000, None).bytes().unwrap();
    assert_eq!(bytes.len(), 4000);
    assert!(bytes.iter().all(|b| *b <= 254));
    let bytes = Randomizer::new(4000, Some(Charset::default())).bytes().unwrap();
    assert!(bytes.iter().all(|b| *b <= 254));
}

#[test]
fn any_string_draws_from_the_built_in_alphabet() {
    let text = Randomizer::new(64, Some(Charset::AnyString)).string().unwrap();
    assert_eq!(text.chars().count(), 64);
    assert!(text.chars().all(|c| randomizer::UTF8.contains(c)));
    let text = Randomizer::new(64, Some(Charset::AnyString))
        .with_strict_limit(StrictLimit::StringLimit)
        .string()
        .unwrap();
    assert_eq!(text.chars().count(), 64);
}

#[test]
fn draws_stay_inside_the_pool() {
    let bytes = Randomizer::new(500, Some(&[1u8, 2, 3][..])).bytes().unwrap();
    assert_eq!(bytes.len(), 500);
    assert!(bytes.iter().all(|b| (1..=3).contains(b)));
    let bytes = Randomizer::new(200, Some(Charset::ByteSets(vec![vec![1, 2], vec![3]])))
        .with_strict_limit(StrictLimit::ByteLimit)
        .bytes()
        .unwrap();
    assert!(bytes.len() == 200 || bytes.len() == 201);
    let mut at = 0;
    while at < bytes.len() {
        if bytes[at] == 1 {
            assert_eq!(bytes[at + 1], 2);
            at += 2;
        } else {
            assert_eq!(bytes[at], 3);
            at += 1;
        }
    }
}

#[test]
fn index_add_counts_under_each_limit() {
    let data = "ó❤⚙ab".as_bytes().to_vec();
    let by_bytes = Randomizer::new(9, Some("x")).with_strict_limit(StrictLimit::ByteLimit);
    assert_eq!(by_bytes.index_add(3, &data).unwrap(), 10);
    let by_chars = Randomizer::new(9, Some("x")).with_strict_limit(StrictLimit::StringLimit);
    assert_eq!(by_chars.index_add(3, &data).unwrap(), 5);
    assert_eq!(by_chars.index_add(0, &Vec::new()).unwrap(), 0);
    let by_tokens = Randomizer::new(9, Some("x"));
    assert_eq!(by_tokens.index_add(3, &data).unwrap(), 4);
    assert_eq!(by_tokens.index_add(0, &vec![0xff]).unwrap(), 1);
    assert_eq!(by_bytes.index_add(0, &vec![0xff, 0xfe]).unwrap(), 2);
    assert!(matches!(
        by_chars.index_add(0, &vec![0xff]),
        Err(Error::ByteConversionFailedForUTF8(_))
    ));
    assert!(matches!(
        by_chars.index_add(0, &vec![0xe2, 0x9a]),
        Err(Error::ByteConversionFailedForUTF8(_))
    ));
}

#[test]
fn lay_appends_token_and_separator() {
    let randomizer = Randomizer::new_with_separator(3, Some("x"), "--");
    let (buf, count) = randomizer.lay(b"ab".to_vec(), 0, &b"cd".to_vec()).unwrap();
    assert_eq!((buf.clone(), count), (b"abcd--".to_vec(), 1));
    let (buf, count) = randomizer.lay(buf, 2, &b"e".to_vec()).unwrap();
    assert_eq!((buf, count), (b"abcd--e".to_vec(), 3));

    let randomizer =
        Randomizer::new_with_separator(8, Some("x"), "--").with_strict_limit(StrictLimit::ByteLimit);
    let (buf, count) = randomizer.lay(b"ab".to_vec(), 2, &b"cd".to_vec()).unwrap();
    assert_eq!((buf.clone(), count), (b"abcd--".to_vec(), 6));
    let (buf, count) = randomizer.lay(buf, 6, &b"ef".to_vec()).unwrap();
    assert_eq!((buf, count), (b"abcd--ef".to_vec(), 8));

    let randomizer =
        Randomizer::new_with_separator(4, Some("x"), "→").with_strict_limit(StrictLimit::StringLimit);
    let (buf, count) =
        randomizer.lay("ó".as_bytes().to_vec(), 1, &"⚙".as_bytes().to_vec()).unwrap();
    assert_eq!((buf.clone(), count), ("ó⚙→".as_bytes().to_vec(), 3));
    let (buf, count) = randomizer.lay(buf, 3, &"❤".as_bytes().to_vec()).unwrap();
    assert_eq!((buf, count), ("ó⚙→❤".as_bytes().to_vec(), 4));
}

#[test]
fn lay_reports_what_stops_a_round() {
    let randomizer = Randomizer::new(4, Some("x")).with_strict_limit(StrictLimit::ByteLimit);
    match randomizer.lay(b"ab".to_vec(), 2, &Vec::new()) {
        Err(Error::CharsetMismatch(message)) => {
            assert_eq!(message, "Charset does not advance the length under the limit")
        }
        _ => panic!("an empty token must stall the round"),
    }
    let randomizer = Randomizer::new(4, Some("x")).with_strict_limit(StrictLimit::StringLimit);
    assert!(matches!(
        randomizer.lay(b"ab".to_vec(), 2, &vec![0x80]),
        Err(Error::ByteConversionFailedForUTF8(_))
    ));
    let randomizer = Randomizer::new(4, Some("x"));
    let (buf, count) = randomizer.lay(b"ab".to_vec(), 2, &Vec::new()).unwrap();
    assert_eq!((buf, count), (b"ab".to_vec(), 3));
}

#[test]
fn presets_draw_from_their_alphabets() {
    let cases: Vec<(Randomizer, &str)> = vec![
        (Randomizer::ALPHANUMERIC(12), randomizer::ALPHANUMERIC),
        (Randomizer::ALPHANUMERIC_LOWER(12), randomizer::ALPHANUMERIC_LOWER),
        (Randomizer::ALPHANUMERIC_UPPER(12), randomizer::ALPHANUMERIC_UPPER),
        (Randomizer::ALPHABETICAL(12), randomizer::ALPHABETICAL),
        (Randomizer::ALPHABETICAL_UPPER(12), randomizer::ALPHABETICAL_UPPER),
        (Randomizer::ALPHABETICAL_LOWER(12), randomizer::ALPHABETICAL_LOWER),
        (Randomizer::NUMERICAL(12), randomizer::NUMERICAL),
        (Randomizer::UTF8(12), randomizer::UTF8),
    ];
    for (randomizer, alphabet) in cases {
        let text = randomizer.string().unwrap();
        assert_eq!(text.chars().count(), 12);
        assert!(text.chars().all(|c| alphabet.contains(c)));
    }
}

#[test]
fn alphabets_hold_what_their_names_say() {
    assert_eq!(randomizer::NUMERICAL, "0123456789");
    assert_eq!(randomizer::ALPHABETICAL_LOWER, "abcdefghijklmnopqrstuvwxyz");
    assert_eq!(randomizer::ALPHABETICAL_UPPER, "ABCDEFGHIJKLMNOPQRSTUVWXYZ");
    assert_eq!(randomizer::ALPHABETICAL.len(), 52);
    assert_eq!(randomizer::ALPHANUMERIC.len(), 62);
    assert_eq!(randomizer::ALPHANUMERIC_LOWER.len(), 36);
    assert_eq!(randomizer::ALPHANUMERIC_UPPER.len(), 36);
    for width in 1..=4 {
        assert!(randomizer::UTF8.chars().any(|c| c.len_utf8() == width));
    }
    assert!(randomizer::UTF8.chars().all(|c| !c.is_control() && !c.is_whitespace()));
}

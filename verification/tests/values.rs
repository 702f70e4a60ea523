use randomizer::tokens::{any_bytes, copy_groups, encode_items, single_bytes, split_chars};
use randomizer::{Charset, Error, RandomBlock};

#[test]
fn block_round_trip_is_identity() {
    for bytes in [vec![], vec![0u8], vec![100, 100, 100], vec![0xff, 0x00, 0xc3, 0x28]] {
        let block = RandomBlock::from(bytes.clone());
        assert_eq!(block.inner(), &bytes);
        let back: Vec<u8> = block.into();
        assert_eq!(back, bytes);
        let block: RandomBlock = RandomBlock::from(&bytes);
        let back: Result<Vec<u8>, Error> = block.into();
        assert_eq!(back.unwrap(), bytes);
    }
}

#[test]
fn block_default_is_empty() {
    let block = RandomBlock::default();
    assert_eq!(block.inner(), &Vec::<u8>::new());
}

#[test]
fn block_inner_mut_changes_the_block() {
    let mut block = RandomBlock::default();
    *block.inner_mut() = vec![100u8, 100u8, 100u8];
    assert_eq!(block.inner(), &vec![100u8, 100u8, 100u8]);
    block.inner_mut().push(7);
    let bytes: Vec<u8> = block.into();
    assert_eq!(bytes, vec![100u8, 100, 100, 7]);
}

#[test]
fn block_clone_keeps_the_bytes() {
    let block = RandomBlock::from(vec![1u8, 2, 3]);
    let copy = block.clone();
    assert_eq!(copy.inner(), block.inner());
}

#[test]
fn block_to_text_decodes_or_fails() {
    let text: Result<String, Error> = RandomBlock::from("ó❤⚙".as_bytes().to_vec()).into();
    assert_eq!(text.unwrap(), "ó❤⚙");
    let text: Result<String, Error> = RandomBlock::from(Vec::new()).into();
    assert_eq!(text.unwrap(), "");
    let text: Result<String, Error> = RandomBlock::from(vec![0xc3u8, 0x28]).into();
    assert!(matches!(text, Err(Error::ByteConversionFailedForUTF8(_))));
    let text: Result<String, Error> = RandomBlock::from(vec![0xedu8, 0xa0, 0x80]).into();
    assert!(matches!(text, Err(Error::ByteConversionFailedForUTF8(_))));
}

#[test]
fn error_wraps_a_decoding_failure() {
    let failure = String::from_utf8(vec![0xffu8]).unwrap_err();
    assert!(matches!(Error::from(failure), Error::ByteConversionFailedForUTF8(_)));
}

#[test]
fn split_chars_gives_one_token_per_character() {
    assert_eq!(
        split_chars("1⚙2"),
        vec![vec![0x31u8], vec![0xe2, 0x9a, 0x99], vec![0x32]]
    );
    assert_eq!(
        split_chars("ó❤😀"),
        vec![vec![0xc3u8, 0xb3], vec![0xe2, 0x9d, 0xa4], vec![0xf0, 0x9f, 0x98, 0x80]]
    );
    assert_eq!(split_chars(""), Vec::<Vec<u8>>::new());
    for text in [randomizer::UTF8, randomizer::ALPHANUMERIC, "\u{7f}\u{80}\u{7ff}\u{800}\u{ffff}\u{10000}\u{10ffff}"] {
        let expected: Vec<Vec<u8>> =
            text.chars().map(|c| c.to_string().into_bytes()).collect();
        assert_eq!(split_chars(text), expected);
    }
}

#[test]
fn encode_items_gives_one_token_per_item() {
    let items = vec!["foo".to_string(), "".to_string(), "ó❤".to_string()];
    assert_eq!(
        encode_items(&items),
        vec![b"foo".to_vec(), Vec::new(), vec![0xc3, 0xb3, 0xe2, 0x9d, 0xa4]]
    );
}

#[test]
fn single_bytes_gives_one_token_per_byte() {
    assert_eq!(single_bytes(&vec![5u8, 0, 255]), vec![vec![5u8], vec![0], vec![255]]);
    assert_eq!(single_bytes(&Vec::new()), Vec::<Vec<u8>>::new());
}

#[test]
fn copy_groups_copies_every_group() {
    let groups = vec![vec![1u8, 2], vec![], vec![3]];
    assert_eq!(copy_groups(&groups), groups);
}

#[test]
fn any_bytes_holds_0_through_254() {
    let pool = any_bytes();
    assert_eq!(pool.len(), 255);
    for (i, token) in pool.iter().enumerate() {
        assert_eq!(token, &vec![i as u8]);
    }
    assert_eq!(pool[254], vec![254u8]);
}

#[test]
fn charset_converts_from_texts_and_bytes() {
    assert!(matches!(Charset::default(), Charset::AnyByte));
    match Charset::from("ab") {
        Charset::String(text) => assert_eq!(text, "ab"),
        _ => panic!("a text must give a text charset"),
    }
    match Charset::from("ab".to_string()) {
        Charset::String(text) => assert_eq!(text, "ab"),
        _ => panic!("a text must give a text charset"),
    }
    match Charset::from(vec!["foo", "bar"]) {
        Charset::StringSets(items) => assert_eq!(items, vec!["foo".to_string(), "bar".to_string()]),
        _ => panic!("a list of texts must give a list charset"),
    }
    match Charset::from(vec!["foo".to_string()]) {
        Charset::StringSets(items) => assert_eq!(items, vec!["foo".to_string()]),
        _ => panic!("a list of texts must give a list charset"),
    }
    match Charset::from(&[1u8, 2, 3][..]) {
        Charset::Bytes(bytes) => assert_eq!(bytes, vec![1u8, 2, 3]),
        _ => panic!("bytes must give a byte charset"),
    }
}

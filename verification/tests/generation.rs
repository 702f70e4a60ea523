use randomizer::{Charset, Error, RandomBlock, Randomizer};

#[test]
pub fn test_ascii_generation() {
    let string = Randomizer::ALPHABETICAL(6).string().unwrap();
    println!("{}", string);
    assert_eq!(string.chars().count(), 6);
}

#[test]
pub fn test_unicode_generation() {
    let charset = "ó❤⚙";
    let string = Randomizer::new(6, Some(charset)).string().unwrap();
    println!("{}", string);
    assert_eq!(string.chars().count(), 6);
}

#[test]
pub fn test_unicode_generation_single() {
    let charset = "⚙";
    println!("{:?}", charset.as_bytes());
    let charset = "1⚙2";
    println!("{:?}", charset.as_bytes());
    let string = Randomizer::new(6, Some(charset)).string().unwrap();
    println!("{}", string);
    assert_eq!(string.chars().count(), 6);
}

#[test]
pub fn test_unicode_generation_large() {
    let charset = "ó❤⚙";
    let string = Randomizer::new(12, Some(charset)).string().unwrap();
    println!("'{}'", string);
    assert_eq!(string.chars().count(), 12);
}

#[test]
pub fn test_new_with_separator() {
    let string = Randomizer::new_with_separator(6, Some("u"), " ")
        .string()
        .unwrap();
    println!("{:?}", string);
    assert_eq!(string.chars().count(), 11);
    assert_eq!(string, "u u u u u u");
}

#[test]
pub fn test_rand() {
    let bytes = Randomizer::new(6, Some(Charset::AnyByte)).rand().unwrap();

    println!("{:?}", bytes);

    assert_eq!(bytes.inner().len(), 6);
}

#[test]
pub fn test_randomblock_to_result() {
    let foo_vec = vec![100u8, 100u8, 100u8];

    let random_block: RandomBlock = RandomBlock::from(&foo_vec);
    let string_res: Result<String, Error> = random_block.into();

    assert_eq!(string_res.unwrap(), "ddd")
}

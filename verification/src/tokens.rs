//! Token pools: the byte sequences that a generator draws from, and the
//! functions that lay them out.
use vstd::prelude::*;
use vstd::slice::{slice_subrange, slice_to_vec};
use vstd::string::StrSliceExecFns;
use vstd::string::StringSliceAdditionalSpecFns;
use vstd::utf8::*;

verus! {

/// `From<&str> for Vec<u8>`, which copies the bytes of a text into a new
/// vector.  Taken on trust: the vector holds the UTF-8 encoding of the
/// text.
pub assume_specification<'a>[ <Vec<u8> as core::convert::From<&'a str>>::from ](
    text: &str,
) -> (bytes: Vec<u8>)
    ensures
        bytes@ == encode_utf8(text@),
;

/// The byte sequences that a list of byte vectors holds.
pub open spec fn views(groups: Seq<Vec<u8>>) -> Seq<Seq<u8>> {
    Seq::new(groups.len(), |i: int| groups[i]@)
}

/// The token of a character: its UTF-8 encoding.
pub open spec fn char_token(c: char) -> Seq<u8> {
    encode_utf8(seq![c])
}

/// The tokens of a text: one for each of its characters, in order.
pub open spec fn text_tokens(chars: Seq<char>) -> Seq<Seq<u8>> {
    Seq::new(chars.len(), |i: int| char_token(chars[i]))
}

/// The tokens of a list of texts: the UTF-8 encoding of each item, in order.
pub open spec fn item_tokens(items: Seq<String>) -> Seq<Seq<u8>> {
    Seq::new(items.len(), |i: int| encode_utf8(items[i]@))
}

/// The tokens of a byte sequence: each byte by itself, in order.
pub open spec fn byte_tokens(bytes: Seq<u8>) -> Seq<Seq<u8>> {
    Seq::new(bytes.len(), |i: int| seq![bytes[i]])
}

/// The 255 one-byte tokens 0 through 254.
pub open spec fn any_byte_tokens() -> Seq<Seq<u8>> {
    Seq::new(255, |i: int| seq![i as u8])
}

/// The token of a character is the encoding of its scalar value: between one
/// and four bytes that are UTF-8 and decode to that character alone.
pub proof fn lemma_char_token(c: char)
    ensures
        char_token(c) == encode_scalar(c as u32),
        1 <= char_token(c).len() <= 4,
        valid_utf8(char_token(c)),
        decode_utf8(char_token(c)) == seq![c],
{
    reveal_with_fuel(encode_utf8, 2);
    assert(seq![c].drop_first() =~= Seq::<char>::empty());
    assert(char_token(c) =~= encode_scalar(c as u32));
    encode_utf8_valid_utf8(seq![c]);
    encode_utf8_decode_utf8(seq![c]);
}

/// Every token of a text is the UTF-8 encoding of one character: between
/// one and four bytes that decode to that character alone.
pub proof fn lemma_text_tokens(chars: Seq<char>)
    ensures
        text_tokens(chars).len() == chars.len(),
        forall|i: int|
            0 <= i < chars.len() ==> {
                let token = #[trigger] text_tokens(chars)[i];
                &&& 1 <= token.len() <= 4
                &&& valid_utf8(token)
                &&& decode_utf8(token) == seq![chars[i]]
            },
{
    assert forall|i: int| 0 <= i < chars.len() implies {
        let token = #[trigger] text_tokens(chars)[i];
        &&& 1 <= token.len() <= 4
        &&& valid_utf8(token)
        &&& decode_utf8(token) == seq![chars[i]]
    } by {
        lemma_char_token(chars[i]);
    }
}

/// Splits a text into the tokens of its characters.
pub fn split_chars(text: &str) -> (tokens: Vec<Vec<u8>>)
    ensures
        views(tokens@) == text_tokens(text@),
{
    let bytes = text.as_bytes();
    let mut tokens: Vec<Vec<u8>> = Vec::new();
    let mut pos: usize = 0;
    let ghost chars = text@;
    let ghost mut k: int = 0;
    proof {
        assert(bytes@.subrange(0, bytes@.len() as int) =~= bytes@);
        assert(chars.subrange(0, chars.len() as int) =~= chars);
    }
    while pos < bytes.len()
        invariant
            chars == text@,
            bytes@ == encode_utf8(chars),
            0 <= k <= chars.len(),
            pos <= bytes@.len(),
            bytes@.subrange(pos as int, bytes@.len() as int) == encode_utf8(
                chars.subrange(k, chars.len() as int),
            ),
            tokens@.len() == k,
            forall|i: int| 0 <= i < k ==> (#[trigger] tokens@[i])@ == char_token(chars[i]),
        decreases bytes@.len() - pos,
    {
        let ghost rest = chars.subrange(k, chars.len() as int);
        let ghost tail = bytes@.subrange(pos as int, bytes@.len() as int);
        proof {
            assert(tail.len() > 0);
            assert(rest.len() > 0);
            assert(rest[0] == chars[k]);
            encode_utf8_first_scalar(rest);
            lemma_char_token(chars[k]);
            assert(tail[0] == bytes@[pos as int]);
        }
        let lead = bytes[pos];
        let width: usize = if lead < 0x80 {
            1
        } else if lead < 0xE0 {
            2
        } else if lead < 0xF0 {
            3
        } else {
            4
        };
        assert(width == length_of_first_scalar(tail));
        assert(tail =~= encode_scalar(chars[k] as u32) + encode_utf8(rest.drop_first()));
        let token = slice_to_vec(slice_subrange(bytes, pos, pos + width));
        proof {
            assert(token@ =~= tail.subrange(0, width as int));
            assert(token@ =~= char_token(chars[k]));
            assert(rest.drop_first() =~= chars.subrange(k + 1, chars.len() as int));
            assert(bytes@.subrange(pos + width, bytes@.len() as int) =~= tail.subrange(
                width as int,
                tail.len() as int,
            ));
            assert(tail.subrange(width as int, tail.len() as int) =~= encode_utf8(
                rest.drop_first(),
            ));
            k = k + 1;
        }
        tokens.push(token);
        pos = pos + width;
    }
    proof {
        if k < chars.len() {
            let rest = chars.subrange(k, chars.len() as int);
            lemma_char_token(rest[0]);
            assert(encode_utf8(rest) =~= encode_scalar(rest[0] as u32) + encode_utf8(
                rest.drop_first(),
            ));
            assert(false);
        }
        assert(views(tokens@) =~= text_tokens(text@));
    }
    tokens
}

/// Lays out each item of a list of texts as one token.
pub fn encode_items(items: &Vec<String>) -> (tokens: Vec<Vec<u8>>)
    ensures
        views(tokens@) == item_tokens(items@),
{
    let mut tokens: Vec<Vec<u8>> = Vec::new();
    let mut i: usize = 0;
    while i < items.len()
        invariant
            i <= items@.len(),
            tokens@.len() == i,
            forall|j: int| 0 <= j < i ==> (#[trigger] tokens@[j])@ == encode_utf8(items@[j]@),
        decreases items@.len() - i,
    {
        tokens.push(Vec::from(items[i].as_str()));
        i += 1;
    }
    assert(views(tokens@) =~= item_tokens(items@));
    tokens
}

/// Lays out each byte of a sequence as a token of its own.
pub fn single_bytes(bytes: &Vec<u8>) -> (tokens: Vec<Vec<u8>>)
    ensures
        views(tokens@) == byte_tokens(bytes@),
{
    let mut tokens: Vec<Vec<u8>> = Vec::new();
    let mut i: usize = 0;
    while i < bytes.len()
        invariant
            i <= bytes@.len(),
            tokens@.len() == i,
            forall|j: int| 0 <= j < i ==> (#[trigger] tokens@[j])@ == seq![bytes@[j]],
        decreases bytes@.len() - i,
    {
        let mut token: Vec<u8> = Vec::new();
        token.push(bytes[i]);
        assert(token@ =~= seq![bytes@[i as int]]);
        tokens.push(token);
        i += 1;
    }
    assert(views(tokens@) =~= byte_tokens(bytes@));
    tokens
}

/// Copies a list of byte groups, each group one token.
pub fn copy_groups(groups: &Vec<Vec<u8>>) -> (tokens: Vec<Vec<u8>>)
    ensures
        views(tokens@) == views(groups@),
{
    let mut tokens: Vec<Vec<u8>> = Vec::new();
    let mut i: usize = 0;
    while i < groups.len()
        invariant
            i <= groups@.len(),
            tokens@.len() == i,
            forall|j: int| 0 <= j < i ==> (#[trigger] tokens@[j])@ == groups@[j]@,
        decreases groups@.len() - i,
    {
        tokens.push(groups[i].clone());
        i += 1;
    }
    assert(views(tokens@) =~= views(groups@));
    tokens
}

/// The pool of every byte from 0 through 254, each a token of its own.
pub fn any_bytes() -> (tokens: Vec<Vec<u8>>)
    ensures
        views(tokens@) == any_byte_tokens(),
{
    let mut tokens: Vec<Vec<u8>> = Vec::new();
    let mut b: u8 = 0;
    while b < 255
        invariant
            b <= 255,
            tokens@.len() == b,
            forall|j: int| 0 <= j < b ==> (#[trigger] tokens@[j])@ == seq![j as u8],
        decreases 255 - b,
    {
        let mut token: Vec<u8> = Vec::new();
        token.push(b);
        assert(token@ =~= seq![b]);
        tokens.push(token);
        b += 1;
    }
    assert(views(tokens@) =~= any_byte_tokens());
    tokens
}

} // verus!

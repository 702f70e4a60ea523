//! The charset of a generator and the pool of tokens that it stands for.
use crate::constants::UTF8;
use crate::tokens::{any_byte_tokens, byte_tokens, item_tokens, text_tokens, views};
use vstd::prelude::*;
use vstd::slice::slice_to_vec;
use vstd::std_specs::convert::FromSpecImpl;

verus! {

/// Where a generator takes its tokens from.
pub enum Charset {
    /// A text: every character of it is a token.
    String(String),
    /// A list of texts: every item is a token, never split.
    StringSets(Vec<String>),
    /// A byte sequence: every byte of it is a token.
    Bytes(Vec<u8>),
    /// A list of byte groups: every group is a token.
    ByteSets(Vec<Vec<u8>>),
    /// Any single byte from 0 through 254.
    AnyByte,
    /// Any character of the built-in alphabet [`UTF8`].
    AnyString,
}

impl Charset {
    /// The pool of tokens that the charset stands for, in order.  A token is
    /// a byte sequence; a character is the token of its UTF-8 encoding.
    pub open spec fn pool(&self) -> Seq<Seq<u8>> {
        match self {
            Charset::String(text) => text_tokens(text@),
            Charset::StringSets(items) => item_tokens(items@),
            Charset::Bytes(bytes) => byte_tokens(bytes@),
            Charset::ByteSets(groups) => views(groups@),
            Charset::AnyByte => any_byte_tokens(),
            Charset::AnyString => text_tokens(UTF8@),
        }
    }
}

impl Default for Charset {
    fn default() -> (r: Self)
        ensures
            r == Charset::AnyByte,
    {
        Charset::AnyByte
    }
}

impl From<String> for Charset {
    fn from(s: String) -> (r: Self) {
        Charset::String(s)
    }
}

impl FromSpecImpl<String> for Charset {
    open spec fn obeys_from_spec() -> bool {
        true
    }

    open spec fn from_spec(s: String) -> Self {
        Charset::String(s)
    }
}

impl From<Vec<String>> for Charset {
    fn from(v: Vec<String>) -> (r: Self) {
        Charset::StringSets(v)
    }
}

impl FromSpecImpl<Vec<String>> for Charset {
    open spec fn obeys_from_spec() -> bool {
        true
    }

    open spec fn from_spec(v: Vec<String>) -> Self {
        Charset::StringSets(v)
    }
}

impl<'a> From<Vec<&'a str>> for Charset {
    /// A list of texts, each copied into the charset.
    fn from(v: Vec<&'a str>) -> (r: Self)
        ensures
            r matches Charset::StringSets(items) && items@.len() == v@.len() && forall|i: int|
                0 <= i < v@.len() ==> (#[trigger] items@[i])@ == v@[i]@,
    {
        let mut items: Vec<String> = Vec::new();
        let mut i: usize = 0;
        while i < v.len()
            invariant
                i <= v.len(),
                items@.len() == i,
                forall|j: int| 0 <= j < i ==> (#[trigger] items@[j])@ == v@[j]@,
            decreases v.len() - i,
        {
            items.push(v[i].to_owned());
            i += 1;
        }
        Charset::StringSets(items)
    }
}

impl<'a> FromSpecImpl<Vec<&'a str>> for Charset {
    /// No spec function names the value that the conversion makes: `from`
    /// says in its own `ensures` what it is.
    open spec fn obeys_from_spec() -> bool {
        false
    }

    open spec fn from_spec(v: Vec<&'a str>) -> Self {
        arbitrary()
    }
}

impl<'a> From<&'a str> for Charset {
    /// A text, copied into the charset.
    fn from(s: &'a str) -> (r: Self)
        ensures
            r matches Charset::String(text) && text@ == s@,
    {
        Charset::String(s.to_owned())
    }
}

impl<'a> FromSpecImpl<&'a str> for Charset {
    /// No spec function names the value that the conversion makes: `from`
    /// says in its own `ensures` what it is.
    open spec fn obeys_from_spec() -> bool {
        false
    }

    open spec fn from_spec(s: &'a str) -> Self {
        arbitrary()
    }
}

impl<'a> From<&'a [u8]> for Charset {
    /// A byte sequence, copied into the charset.
    fn from(u: &'a [u8]) -> (r: Self)
        ensures
            r matches Charset::Bytes(bytes) && bytes@ == u@,
    {
        Charset::Bytes(slice_to_vec(u))
    }
}

impl<'a> FromSpecImpl<&'a [u8]> for Charset {
    /// No spec function names the value that the conversion makes: `from`
    /// says in its own `ensures` what it is.
    open spec fn obeys_from_spec() -> bool {
        false
    }

    open spec fn from_spec(u: &'a [u8]) -> Self {
        arbitrary()
    }
}

} // verus!

//! The bytes that one generation request produced.
use crate::error::Error;
use vstd::prelude::*;
use vstd::std_specs::convert::{FromSpec, FromSpecImpl};
use vstd::utf8::*;

verus! {

/// An owned buffer of generated bytes.
#[derive(Debug)]
pub struct RandomBlock {
    inner: Vec<u8>,
}

impl View for RandomBlock {
    type V = Seq<u8>;

    closed spec fn view(&self) -> Seq<u8> {
        self.inner@
    }
}

impl RandomBlock {
    /// The bytes of the block.
    pub fn inner(&self) -> (r: &Vec<u8>)
        ensures
            r@ == self@,
    {
        &self.inner
    }

    /// The bytes of the block, for changing them in place: the block holds
    /// whatever the caller leaves behind the returned reference.
    pub fn inner_mut(&mut self) -> (r: &mut Vec<u8>)
        ensures
            r@ == old(self)@,
            final(self)@ == final(r)@,
    {
        &mut self.inner
    }
}

impl Default for RandomBlock {
    fn default() -> (r: Self)
        ensures
            r@ == Seq::<u8>::empty(),
    {
        RandomBlock { inner: Vec::new() }
    }
}

impl Clone for RandomBlock {
    fn clone(&self) -> (r: Self)
        ensures
            r@ == self@,
    {
        RandomBlock { inner: self.inner.clone() }
    }
}

impl From<Vec<u8>> for RandomBlock {
    /// Wraps the bytes as they are.
    fn from(v: Vec<u8>) -> (r: Self)
        ensures
            r@ == v@,
    {
        RandomBlock { inner: v }
    }
}

impl FromSpecImpl<Vec<u8>> for RandomBlock {
    open spec fn obeys_from_spec() -> bool {
        true
    }

    closed spec fn from_spec(v: Vec<u8>) -> Self {
        RandomBlock { inner: v }
    }
}

impl From<RandomBlock> for Vec<u8> {
    /// Hands the bytes out as they are.
    fn from(r: RandomBlock) -> (v: Self)
        ensures
            v@ == r@,
    {
        r.inner
    }
}

impl FromSpecImpl<RandomBlock> for Vec<u8> {
    open spec fn obeys_from_spec() -> bool {
        true
    }

    closed spec fn from_spec(r: RandomBlock) -> Self {
        r.inner
    }
}

impl From<&Vec<u8>> for RandomBlock {
    /// Wraps a copy of the bytes.
    fn from(v: &Vec<u8>) -> (r: Self)
        ensures
            r@ == v@,
    {
        RandomBlock { inner: v.clone() }
    }
}

impl FromSpecImpl<&Vec<u8>> for RandomBlock {
    /// No spec function names the value that the conversion makes: `from`
    /// says in its own `ensures` what it is.
    open spec fn obeys_from_spec() -> bool {
        false
    }

    open spec fn from_spec(v: &Vec<u8>) -> Self {
        arbitrary()
    }
}

impl From<RandomBlock> for Result<Vec<u8>, Error> {
    /// Hands the bytes out as they are; this never fails.
    fn from(r: RandomBlock) -> (v: Self)
        ensures
            v matches Ok(bytes) && bytes@ == r@,
    {
        Ok(r.inner)
    }
}

impl FromSpecImpl<RandomBlock> for Result<Vec<u8>, Error> {
    open spec fn obeys_from_spec() -> bool {
        true
    }

    closed spec fn from_spec(r: RandomBlock) -> Self {
        Ok(r.inner)
    }
}

impl From<RandomBlock> for Result<String, Error> {
    /// Reads the bytes as UTF-8: the text they encode, or the decoding
    /// failure if they encode none.
    fn from(r: RandomBlock) -> (text: Self)
        ensures
            match text {
                Ok(s) => valid_utf8(r@) && s@ == decode_utf8(r@),
                Err(e) => !valid_utf8(r@) && e is ByteConversionFailedForUTF8,
            },
    {
        match String::from_utf8(r.inner) {
            Ok(s) => Ok(s),
            Err(e) => Err(Error::from(e)),
        }
    }
}

impl FromSpecImpl<RandomBlock> for Result<String, Error> {
    /// No spec function names the value that the conversion makes: `from`
    /// says in its own `ensures` what it is.
    open spec fn obeys_from_spec() -> bool {
        false
    }

    open spec fn from_spec(r: RandomBlock) -> Self {
        arbitrary()
    }
}

/// Wrapping bytes into a block and unwrapping the block gives the bytes
/// back unchanged.
pub proof fn lemma_wrap_unwrap(bytes: Vec<u8>)
    ensures
        <Vec<u8> as FromSpec<RandomBlock>>::from_spec(
            <RandomBlock as FromSpec<Vec<u8>>>::from_spec(bytes),
        ) == bytes,
        <RandomBlock as FromSpec<Vec<u8>>>::from_spec(bytes)@ == bytes@,
{
}

} // verus!

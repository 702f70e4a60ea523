//! The failures a generation request can end in.
use std::string::FromUtf8Error;
use vstd::prelude::*;
use vstd::std_specs::convert::FromSpecImpl;

verus! {

/// `std::string::FromUtf8Error`, the error of `String::from_utf8`.  Its
/// contents are not inspected: the value is only carried to the caller.
#[verifier::external_type_specification]
#[verifier::external_body]
pub struct ExFromUtf8Error(FromUtf8Error);

/// `From<T> for T`, the conversion of a value into its own type, which is
/// what `into` comes to where a charset or a separator is handed over in
/// the type that the generator keeps.  Taken on trust: it returns its
/// argument unchanged.
pub assume_specification<T>[ <T as core::convert::From<T>>::from ](t: T) -> (r: T)
    ensures
        r == t,
;

/// What is said when a token is needed and the pool is empty.
pub const EMPTY_POOL: &'static str = "Getting string cause overflow/underflow";

/// What is said when a round leaves the counted length where it was.
pub const NO_ADVANCE: &'static str = "Charset does not advance the length under the limit";

/// Why a generation request or a conversion to text failed.
#[derive(Debug)]
pub enum Error {
    /// The pool of tokens is empty, so no token can be drawn.
    OverflowUnderflow(String),
    /// The assembled bytes are not UTF-8.
    ByteConversionFailedForUTF8(FromUtf8Error),
    /// A round of assembly left the counted length where it was: the charset
    /// cannot advance the length under the chosen limit.
    CharsetMismatch(String),
}

impl From<FromUtf8Error> for Error {
    fn from(e: FromUtf8Error) -> (r: Self) {
        Error::ByteConversionFailedForUTF8(e)
    }
}

impl FromSpecImpl<FromUtf8Error> for Error {
    open spec fn obeys_from_spec() -> bool {
        true
    }

    open spec fn from_spec(e: FromUtf8Error) -> Self {
        Error::ByteConversionFailedForUTF8(e)
    }
}

} // verus!

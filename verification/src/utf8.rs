//! UTF-8 facts and operations that the generator relies on.
use std::string::FromUtf8Error;
use vstd::prelude::*;
use vstd::utf8::*;

verus! {

/// `String::from_utf8`, which checks that a vector of bytes is UTF-8 and
/// turns it into a `String` without copying.  Taken on trust: the call
/// succeeds exactly on well-formed UTF-8, and the `String` then holds the
/// characters that the bytes encode.
pub assume_specification[ std::string::String::from_utf8 ](vec: Vec<u8>) -> (r: Result<
    std::string::String,
    FromUtf8Error,
>)
    ensures
        r is Ok <==> valid_utf8(vec@),
        r matches Ok(s) ==> s@ == decode_utf8(vec@),
;

/// Two UTF-8 sequences laid end to end are UTF-8, and decode to the
/// characters of the first followed by those of the second.
pub proof fn lemma_decode_concat(a: Seq<u8>, b: Seq<u8>)
    requires
        valid_utf8(a),
        valid_utf8(b),
    ensures
        valid_utf8(a + b),
        decode_utf8(a + b) == decode_utf8(a) + decode_utf8(b),
    decreases a.len(),
{
    valid_utf8_concat(a, b);
    if a.len() == 0 {
        assert(a + b =~= b);
        assert(decode_utf8(a) =~= Seq::<char>::empty());
    } else {
        let rest = pop_first_scalar(a);
        assert(pop_first_scalar(a + b) =~= rest + b);
        assert(decode_first_scalar(a + b) == decode_first_scalar(a));
        lemma_decode_concat(rest, b);
        assert(decode_utf8(a + b) =~= decode_utf8(a) + decode_utf8(b));
    }
}

/// A UTF-8 sequence that is not empty encodes at least one character.
pub proof fn lemma_decode_nonempty(a: Seq<u8>)
    requires
        valid_utf8(a),
        a.len() > 0,
    ensures
        decode_utf8(a).len() >= 1,
{
}

} // verus!

//! The generator: a target length, a charset, an optional separator and a
//! limit, and the loop that assembles an output from them.
use crate::block::RandomBlock;
use crate::charset::Charset;
use crate::constants::{
    ALPHABETICAL, ALPHABETICAL_LOWER, ALPHABETICAL_UPPER, ALPHANUMERIC, ALPHANUMERIC_LOWER,
    ALPHANUMERIC_UPPER, NUMERICAL, UTF8,
};
use crate::error::{Error, EMPTY_POOL, NO_ADVANCE};
use crate::plan::{Plan, Stage, StrictLimit};
use crate::proofs::{
    lemma_after_coherent, lemma_after_push, lemma_after_textual, lemma_repeats_steady,
    lemma_round_coherent, lemma_round_steady, lemma_yields_shapes,
};
use crate::tokens::{
    any_byte_tokens, any_bytes, copy_groups, encode_items, item_tokens, single_bytes,
    split_chars, text_tokens, views,
};
use vstd::prelude::*;
use vstd::string::StrSliceExecFns;
use vstd::utf8::*;

verus! {

/// `fastrand::usize` over the range from 0 up to, not including, `bound`,
/// drawn from the thread's generator.  Taken on trust: the number returned
/// lies in that range.  The call panics on an empty range, so `bound` must
/// not be zero.
#[verifier::external_body]
fn random_index(bound: usize) -> (r: usize)
    requires
        bound > 0,
    ensures
        r < bound,
{
    fastrand::usize(0..bound)
}

/// A request for random bytes or random text.
pub struct Randomizer {
    length: usize,
    charset: Charset,
    separator: Option<Vec<u8>>,
    strict_limit: StrictLimit,
}

/// What a generation under `plan` may end in.  An output is one that the
/// plan yields for some draw, and has the shape that the limit gives it.  An
/// empty pool fails as such exactly when a token is needed.  The other
/// failures come with a draw that leads to them.  Where no draw can fail, the
/// generation succeeds.
pub open spec fn permitted(plan: Plan, r: Result<Seq<u8>, Error>) -> bool {
    &&& match r {
        Ok(out) => plan.yields(out) && plan.shapes(out),
        Err(Error::OverflowUnderflow(message)) => plan.pool.len() == 0 && plan.target > 0
            && message@ == EMPTY_POOL@,
        Err(Error::ByteConversionFailedForUTF8(_)) => plan.limit is StringLimit
            && plan.may_break(),
        Err(Error::CharsetMismatch(message)) => !(plan.limit is Unbounded) && plan.may_stall()
            && message@ == NO_ADVANCE@,
    }
    &&& plan.pool.len() == 0 && plan.target > 0 ==> (r matches Err(Error::OverflowUnderflow(_)))
    &&& plan.target == 0 || (plan.pool.len() > 0 && plan.steady()) ==> r is Ok
    &&& plan.repeats() ==> r is Ok
}

/// What a generation under `plan` whose output is read as text may end in.
/// A text is one whose UTF-8 encoding the plan yields.  Besides the failures
/// of the generation itself, an output that is not UTF-8 fails to decode.
/// Where characters are counted every output decodes, and so does every
/// output of tokens and a separator that are UTF-8.
pub open spec fn permitted_text(plan: Plan, r: Result<Seq<char>, Error>) -> bool {
    &&& match r {
        Ok(text) => {
            &&& plan.yields(encode_utf8(text))
            &&& plan.shapes(encode_utf8(text))
            &&& plan.spells(text)
        },
        Err(Error::OverflowUnderflow(message)) => plan.pool.len() == 0 && plan.target > 0
            && message@ == EMPTY_POOL@,
        Err(Error::ByteConversionFailedForUTF8(_)) => if plan.limit is StringLimit {
            plan.may_break()
        } else {
            !plan.textual() && exists|out: Seq<u8>| #[trigger] plan.yields(out) && !valid_utf8(out)
        },
        Err(Error::CharsetMismatch(message)) => !(plan.limit is Unbounded) && plan.may_stall()
            && message@ == NO_ADVANCE@,
    }
    &&& plan.pool.len() == 0 && plan.target > 0 ==> (r matches Err(Error::OverflowUnderflow(_)))
    &&& plan.textual() && (plan.target == 0 || (plan.pool.len() > 0 && plan.steady())) ==> r is Ok
    &&& plan.textual() && plan.repeats() ==> r is Ok
}

/// The outcome of a generation, with the block taken by its bytes.
pub open spec fn block_outcome(r: Result<RandomBlock, Error>) -> Result<Seq<u8>, Error> {
    match r {
        Ok(block) => Ok(block@),
        Err(e) => Err(e),
    }
}

/// The outcome of a generation, with the vector taken by its bytes.
pub open spec fn bytes_outcome(r: Result<Vec<u8>, Error>) -> Result<Seq<u8>, Error> {
    match r {
        Ok(bytes) => Ok(bytes@),
        Err(e) => Err(e),
    }
}

/// The outcome of a generation, with the text taken by its characters.
pub open spec fn text_outcome(r: Result<String, Error>) -> Result<Seq<char>, Error> {
    match r {
        Ok(text) => Ok(text@),
        Err(e) => Err(e),
    }
}

/// The plan of a preset: `length` tokens drawn from the characters of
/// `alphabet`, no separator, tokens counted.
pub open spec fn preset(length: usize, alphabet: Seq<char>) -> Plan {
    Plan {
        target: length as nat,
        pool: text_tokens(alphabet),
        separator: None,
        limit: StrictLimit::Unbounded,
    }
}

/// The pool that a list of tokens stands for, and the pool of every byte 0
/// through 254 where no list is given.
pub open spec fn given_pool(set_opt: Option<Vec<Vec<u8>>>) -> Seq<Seq<u8>> {
    match set_opt {
        Some(set) => views(set@),
        None => any_byte_tokens(),
    }
}

impl View for Randomizer {
    type V = Plan;

    open spec fn view(&self) -> Plan {
        Plan {
            target: self.spec_length() as nat,
            pool: self.spec_charset().pool(),
            separator: match self.spec_separator() {
                Some(sep) => Some(sep@),
                None => None,
            },
            limit: self.spec_limit(),
        }
    }
}

impl Randomizer {
    /// The target length.
    pub closed spec fn spec_length(&self) -> usize {
        self.length
    }

    /// The charset.
    pub closed spec fn spec_charset(&self) -> Charset {
        self.charset
    }

    /// The separator, if there is one.
    pub closed spec fn spec_separator(&self) -> Option<Vec<u8>> {
        self.separator
    }

    /// The limit.
    pub closed spec fn spec_limit(&self) -> StrictLimit {
        self.strict_limit
    }

    /// A generator for `length` tokens of the charset that `charset` converts
    /// into, or of [`Charset::AnyByte`] where none is given; no separator.
    pub fn new<C: Into<Charset>>(length: usize, charset: Option<C>) -> (r: Randomizer)
        ensures
            r.spec_length() == length,
            match charset {
                Some(c) => call_ensures(<C as Into<Charset>>::into, (c,), r.spec_charset()),
                None => r.spec_charset() == Charset::AnyByte,
            },
            r.spec_separator() is None,
            r.spec_limit() == StrictLimit::Unbounded,
    {
        let charset = match charset {
            Some(c) => c.into(),
            None => Charset::default(),
        };
        Randomizer { length, charset, separator: None, strict_limit: StrictLimit::Unbounded }
    }

    /// A generator like that of [`Randomizer::new`], which lays the bytes
    /// that `sep` converts into between the tokens.
    pub fn new_with_separator<C: Into<Charset>, B: Into<Vec<u8>>>(
        length: usize,
        charset: Option<C>,
        sep: B,
    ) -> (r: Randomizer)
        ensures
            r.spec_length() == length,
            match charset {
                Some(c) => call_ensures(<C as Into<Charset>>::into, (c,), r.spec_charset()),
                None => r.spec_charset() == Charset::AnyByte,
            },
            r.spec_separator() matches Some(bytes) && call_ensures(
                <B as Into<Vec<u8>>>::into,
                (sep,),
                bytes,
            ),
            r.spec_limit() == StrictLimit::Unbounded,
    {
        let charset: Option<Charset> = match charset {
            Some(c) => Some(c.into()),
            None => None,
        };
        let plain = Randomizer::new(length, charset);
        Randomizer {
            length: plain.length,
            charset: plain.charset,
            separator: Some(sep.into()),
            strict_limit: plain.strict_limit,
        }
    }

    /// The same generator under another limit.
    pub fn with_strict_limit(self, strict_limit: StrictLimit) -> (r: Randomizer)
        ensures
            r.spec_length() == self.spec_length(),
            r.spec_charset() == self.spec_charset(),
            r.spec_separator() == self.spec_separator(),
            r.spec_limit() == strict_limit,
    {
        Randomizer {
            length: self.length,
            charset: self.charset,
            separator: self.separator,
            strict_limit,
        }
    }

    /// A generator for `length` characters of [`ALPHANUMERIC`].
    #[allow(non_snake_case)]
    pub fn ALPHANUMERIC(length: usize) -> (r: Randomizer)
        ensures
            r@ == preset(length, ALPHANUMERIC@),
    {
        Randomizer::new(length, Some(ALPHANUMERIC))
    }

    /// A generator for `length` characters of [`ALPHANUMERIC_LOWER`].
    #[allow(non_snake_case)]
    pub fn ALPHANUMERIC_LOWER(length: usize) -> (r: Randomizer)
        ensures
            r@ == preset(length, ALPHANUMERIC_LOWER@),
    {
        Randomizer::new(length, Some(ALPHANUMERIC_LOWER))
    }

    /// A generator for `length` characters of [`ALPHANUMERIC_UPPER`].
    #[allow(non_snake_case)]
    pub fn ALPHANUMERIC_UPPER(length: usize) -> (r: Randomizer)
        ensures
            r@ == preset(length, ALPHANUMERIC_UPPER@),
    {
        Randomizer::new(length, Some(ALPHANUMERIC_UPPER))
    }

    /// A generator for `length` characters of [`ALPHABETICAL`].
    #[allow(non_snake_case)]
    pub fn ALPHABETICAL(length: usize) -> (r: Randomizer)
        ensures
            r@ == preset(length, ALPHABETICAL@),
    {
        Randomizer::new(length, Some(ALPHABETICAL))
    }

    /// A generator for `length` characters of [`ALPHABETICAL_UPPER`].
    #[allow(non_snake_case)]
    pub fn ALPHABETICAL_UPPER(length: usize) -> (r: Randomizer)
        ensures
            r@ == preset(length, ALPHABETICAL_UPPER@),
    {
        Randomizer::new(length, Some(ALPHABETICAL_UPPER))
    }

    /// A generator for `length` characters of [`ALPHABETICAL_LOWER`].
    #[allow(non_snake_case)]
    pub fn ALPHABETICAL_LOWER(length: usize) -> (r: Randomizer)
        ensures
            r@ == preset(length, ALPHABETICAL_LOWER@),
    {
        Randomizer::new(length, Some(ALPHABETICAL_LOWER))
    }

    /// A generator for `length` characters of [`NUMERICAL`].
    #[allow(non_snake_case)]
    pub fn NUMERICAL(length: usize) -> (r: Randomizer)
        ensures
            r@ == preset(length, NUMERICAL@),
    {
        Randomizer::new(length, Some(NUMERICAL))
    }

    /// A generator for `length` characters of [`UTF8`].
    #[allow(non_snake_case)]
    pub fn UTF8(length: usize) -> (r: Randomizer)
        ensures
            r@ == preset(length, UTF8@),
    {
        Randomizer::new(length, Some(UTF8))
    }

    /// Generates an output and reads it as text.
    pub fn string(&self) -> (r: Result<String, Error>)
        ensures
            permitted_text(self@, text_outcome(r)),
    {
        match self.rand() {
            Ok(block) => {
                let ghost out = block@;
                proof {
                    if self@.textual() {
                        let drawn = choose|drawn: Seq<Seq<u8>>|
                            #[trigger] self@.assembles(drawn, out);
                        lemma_after_textual(self@, drawn);
                    }
                }
                let text: Result<String, Error> = block.into();
                proof {
                    if text is Ok {
                        decode_utf8_encode_utf8(out);
                    }
                }
                text
            },
            Err(e) => Err(e),
        }
    }

    /// Generates an output and hands out its bytes.
    pub fn bytes(&self) -> (r: Result<Vec<u8>, Error>)
        ensures
            permitted(self@, bytes_outcome(r)),
    {
        match self.rand() {
            Ok(block) => block.into(),
            Err(e) => Err(e),
        }
    }

    /// Generates an output: tokens are drawn at random from the charset's
    /// pool, a token may come up any number of times, and each is laid in a
    /// round of its own until the counted length reaches the target.
    pub fn rand(&self) -> (r: Result<RandomBlock, Error>)
        ensures
            permitted(self@, block_outcome(r)),
    {
        proof {
            assert(self@.over(self@.pool) == self@);
        }
        match &self.charset {
            Charset::String(s) => self.rand_string(s.as_str()),
            Charset::Bytes(b) => self.rand_byte(Some(single_bytes(b))),
            Charset::AnyByte => self.rand_byte(None),
            Charset::AnyString => self.rand_string(UTF8),
            Charset::ByteSets(v) => self.rand_byte(Some(copy_groups(v))),
            Charset::StringSets(v) => self.rand_string_set(v),
        }
    }

    /// Generates an output from the characters of `charset`.
    fn rand_string(&self, charset: &str) -> (r: Result<RandomBlock, Error>)
        ensures
            permitted(self@.over(text_tokens(charset@)), block_outcome(r)),
    {
        let chars = split_chars(charset);
        self.rand_byte(Some(chars))
    }

    /// Generates an output from the items of `charset`.
    fn rand_string_set(&self, charset: &Vec<String>) -> (r: Result<RandomBlock, Error>)
        ensures
            permitted(self@.over(item_tokens(charset@)), block_outcome(r)),
    {
        let byte_sets = encode_items(charset);
        self.rand_byte(Some(byte_sets))
    }

    /// Generates an output from the tokens of `set_opt`, or from every byte
    /// 0 through 254 where none are given.
    fn rand_byte(&self, set_opt: Option<Vec<Vec<u8>>>) -> (r: Result<RandomBlock, Error>)
        ensures
            permitted(self@.over(given_pool(set_opt)), block_outcome(r)),
    {
        let ghost plan = self@.over(given_pool(set_opt));
        let set = match set_opt {
            Some(set) => set,
            None => any_bytes(),
        };
        let mut vec: Vec<u8> = Vec::new();
        let mut idx: usize = 0;
        let ghost mut drawn: Seq<Seq<u8>> = Seq::empty();
        while idx < self.length
            invariant
                plan == self@.over(given_pool(set_opt)),
                plan.pool == views(set@),
                plan.draws(drawn),
                plan.after(drawn) == (Stage::Laid { buf: vec@, count: idx as nat }),
            decreases (if idx < self.length { self.length - idx } else { 0 }),
        {
            if set.len() == 0 {
                return Err(Error::OverflowUnderflow(EMPTY_POOL.to_owned()));
            }
            let token = &set[random_index(set.len())];
            proof {
                assert(plan.pool.contains(token@)) by {
                    let k = choose|k: int| 0 <= k < set@.len() && set@[k] == *token;
                    assert(plan.pool[k] == token@);
                }
                lemma_after_coherent(plan, drawn);
                lemma_after_push(plan, drawn, token@);
                lemma_round_coherent(plan, vec@, idx as nat, token@);
                if plan.steady() {
                    lemma_round_steady(plan, vec@, idx as nat, token@);
                }
                if plan.repeats() {
                    lemma_repeats_steady(plan);
                }
                drawn = drawn.push(token@);
            }
            match self.lay(vec, idx, token) {
                Ok((laid, count)) => {
                    vec = laid;
                    idx = count;
                },
                Err(e) => {
                    assert(plan.breaks(drawn) || plan.stalls(drawn));
                    return Err(e);
                },
            }
        }
        proof {
            assert(plan.assembles(drawn, vec@));
            lemma_yields_shapes(plan, vec@);
            if plan.pool.len() == 0 && plan.target > 0 {
                if drawn.len() > 0 {
                    assert(plan.pool.contains(drawn[0]));
                }
            }
        }
        Ok(RandomBlock::from(vec))
    }

    /// One round of the assembly: lays `token` behind `buf` and counts the
    /// length; if there is a separator and the length is still short of the
    /// target, lays the separator too, and counts again unless tokens are
    /// what is counted.  Returns the bytes laid and their length.  Fails if
    /// the bytes cannot be counted, or if the length did not grow; what was
    /// laid is then given up.
    pub fn lay(&self, buf: Vec<u8>, idx: usize, token: &Vec<u8>) -> (r: Result<
        (Vec<u8>, usize),
        Error,
    >)
        requires
            self@.limit is Unbounded ==> idx < usize::MAX,
        ensures
            match self@.round(buf@, idx as nat, token@) {
                Stage::Laid { buf: laid, count } => r matches Ok(next) && next.0@ == laid
                    && next.1 == count,
                Stage::Broken => r matches Err(Error::ByteConversionFailedForUTF8(_)),
                Stage::Stalled => r matches Err(Error::CharsetMismatch(message)) && message@
                    == NO_ADVANCE@,
            },
    {
        let mut vec = buf;
        vec.extend_from_slice(token.as_slice());
        assert(vec@ =~= buf@ + token@);
        let mut count = self.index_add(idx, &vec)?;
        if let Some(sep) = &self.separator {
            if count < self.length {
                vec.extend_from_slice(sep.as_slice());
                assert(vec@ =~= buf@ + token@ + sep@);
                if self.strict_limit != StrictLimit::Unbounded {
                    count = self.index_add(count, &vec)?;
                }
            }
        }
        if count <= idx {
            return Err(Error::CharsetMismatch(NO_ADVANCE.to_owned()));
        }
        Ok((vec, count))
    }

    /// The length of `data` as the limit counts it, where `idx` was the
    /// length before the last piece was laid: the number of bytes, the number
    /// of characters, or one more than `idx`.  Fails if characters are
    /// counted and `data` is not UTF-8.
    pub fn index_add(&self, idx: usize, data: &Vec<u8>) -> (r: Result<usize, Error>)
        requires
            self@.limit is Unbounded ==> idx < usize::MAX,
        ensures
            match r {
                Ok(n) => self@.limit.admits(data@) && n == self@.limit.count(idx as nat, data@),
                Err(e) => !self@.limit.admits(data@) && e is ByteConversionFailedForUTF8,
            },
    {
        match self.strict_limit {
            StrictLimit::ByteLimit => Ok(data.len()),
            StrictLimit::StringLimit => match String::from_utf8(data.clone()) {
                Ok(text) => Ok(text.as_str().unicode_len()),
                Err(e) => Err(Error::from(e)),
            },
            StrictLimit::Unbounded => Ok(idx + 1),
        }
    }
}

} // verus!

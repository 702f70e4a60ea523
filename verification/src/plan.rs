//! The model of an assembly: how drawn tokens and separators are laid into
//! the output, and how the length is counted under each limit.
use vstd::prelude::*;
use vstd::utf8::*;

verus! {

/// How the length of the output is counted against the target.
#[derive(PartialEq, Eq, Clone, Copy, Debug, Structural)]
pub enum StrictLimit {
    /// The length is the number of bytes laid so far.
    ByteLimit,
    /// The length is the number of characters laid so far; the bytes laid
    /// must be UTF-8 whenever they are counted.
    StringLimit,
    /// The length is the number of tokens drawn so far; separators do not
    /// count.
    Unbounded,
}

impl StrictLimit {
    /// Whether a buffer can be counted under the limit.
    pub open spec fn admits(self, buf: Seq<u8>) -> bool {
        self is StringLimit ==> valid_utf8(buf)
    }

    /// The length counted for `buf`, where `prev` was the length before the
    /// last piece was laid.
    pub open spec fn count(self, prev: nat, buf: Seq<u8>) -> nat {
        match self {
            StrictLimit::ByteLimit => buf.len(),
            StrictLimit::StringLimit => decode_utf8(buf).len(),
            StrictLimit::Unbounded => prev + 1,
        }
    }

    /// Whether laying `piece` adds exactly one to the counted length.
    pub open spec fn unit(self, piece: Seq<u8>) -> bool {
        match self {
            StrictLimit::ByteLimit => piece.len() == 1,
            StrictLimit::StringLimit => valid_utf8(piece) && decode_utf8(piece).len() == 1,
            StrictLimit::Unbounded => true,
        }
    }

    /// Whether what laying `piece` adds to the counted length is a multiple
    /// of `d`.
    pub open spec fn steps(self, piece: Seq<u8>, d: nat) -> bool {
        match self {
            StrictLimit::ByteLimit => piece.len() % d == 0,
            StrictLimit::StringLimit => valid_utf8(piece) && decode_utf8(piece).len() % d == 0,
            StrictLimit::Unbounded => true,
        }
    }

    /// Whether laying `piece` adds at most `w` to the counted length.
    pub open spec fn weighs(self, piece: Seq<u8>, w: nat) -> bool {
        match self {
            StrictLimit::ByteLimit => piece.len() <= w,
            StrictLimit::StringLimit => valid_utf8(piece) && decode_utf8(piece).len() <= w,
            StrictLimit::Unbounded => true,
        }
    }
}

/// Where an assembly stands after some rounds.
pub enum Stage {
    /// Every round so far went through: the bytes laid and their counted
    /// length.
    Laid { buf: Seq<u8>, count: nat },
    /// The bytes laid were to be counted in characters and are not UTF-8.
    Broken,
    /// A round ended with the counted length no greater than before it.
    Stalled,
}

/// A round that moved the count from `before` to `after` goes through only
/// if the count grew.
pub open spec fn settle(before: nat, buf: Seq<u8>, after: nat) -> Stage {
    if after > before {
        Stage::Laid { buf, count: after }
    } else {
        Stage::Stalled
    }
}

/// The pieces joined by the separator: a separator between every two
/// neighbours, none before the first piece and none behind the last.
pub open spec fn joined(pieces: Seq<Seq<u8>>, sep: Seq<u8>) -> Seq<u8>
    decreases pieces.len(),
{
    if pieces.len() == 0 {
        Seq::empty()
    } else if pieces.len() == 1 {
        pieces[0]
    } else {
        joined(pieces.drop_last(), sep) + sep + pieces.last()
    }
}

/// `n` copies of one piece.
pub open spec fn copies(piece: Seq<u8>, n: nat) -> Seq<Seq<u8>> {
    Seq::new(n, |i: int| piece)
}

/// What a generator was asked for.
pub struct Plan {
    /// The length that the output must reach.
    pub target: nat,
    /// The tokens that may be drawn.
    pub pool: Seq<Seq<u8>>,
    /// The separator, if one was asked for.
    pub separator: Option<Seq<u8>>,
    /// How the length is counted.
    pub limit: StrictLimit,
}

impl Plan {
    /// The bytes of the separator; none where no separator was asked for.
    pub open spec fn sep(self) -> Seq<u8> {
        match self.separator {
            Some(s) => s,
            None => Seq::empty(),
        }
    }

    /// The same plan over another pool.
    pub open spec fn over(self, pool: Seq<Seq<u8>>) -> Plan {
        Plan { pool, ..self }
    }

    /// One round: the token is laid behind `buf` and the length is counted;
    /// if a separator was asked for and the length is still short of the
    /// target, the separator is laid too, and counted unless tokens are what
    /// is counted.  The round goes through if the length grew.  Nothing is
    /// cut: a token or a separator that is wider than what was missing
    /// carries the length past the target.
    pub open spec fn round(self, buf: Seq<u8>, count: nat, token: Seq<u8>) -> Stage {
        let with_token = buf + token;
        if !self.limit.admits(with_token) {
            Stage::Broken
        } else {
            let c1 = self.limit.count(count, with_token);
            if self.separator is Some && c1 < self.target {
                let with_sep = with_token + self.sep();
                if self.limit is Unbounded {
                    settle(count, with_sep, c1)
                } else if !self.limit.admits(with_sep) {
                    Stage::Broken
                } else {
                    settle(count, with_sep, self.limit.count(c1, with_sep))
                }
            } else {
                settle(count, with_token, c1)
            }
        }
    }

    /// Where the assembly stands once the tokens of `drawn` have come up in
    /// this order.  It starts with nothing laid; each token takes a round
    /// while the length is short of the target; tokens that come up after
    /// the target was reached, or after a failure, change nothing.
    pub open spec fn after(self, drawn: Seq<Seq<u8>>) -> Stage
        decreases drawn.len(),
    {
        if drawn.len() == 0 {
            Stage::Laid { buf: Seq::empty(), count: 0 }
        } else {
            match self.after(drawn.drop_last()) {
                Stage::Laid { buf, count } => if count < self.target {
                    self.round(buf, count, drawn.last())
                } else {
                    Stage::Laid { buf, count }
                },
                failed => failed,
            }
        }
    }

    /// The number of tokens of `drawn` that take a round: those that come up
    /// while the length is short of the target and nothing has failed.
    pub open spec fn rounds(self, drawn: Seq<Seq<u8>>) -> nat
        decreases drawn.len(),
    {
        if drawn.len() == 0 {
            0
        } else {
            match self.after(drawn.drop_last()) {
                Stage::Laid { buf, count } => if count < self.target {
                    self.rounds(drawn.drop_last()) + 1
                } else {
                    self.rounds(drawn.drop_last())
                },
                _ => self.rounds(drawn.drop_last()),
            }
        }
    }

    /// Whether `out` is made of the tokens `laid`, joined by the separator,
    /// with or without one more separator behind the last token.
    pub open spec fn interleaves(self, laid: Seq<Seq<u8>>, out: Seq<u8>) -> bool {
        ||| out == joined(laid, self.sep())
        ||| laid.len() > 0 && out == joined(laid, self.sep()) + self.sep()
    }

    /// Whether every token of `drawn` is in the pool.
    pub open spec fn draws(self, drawn: Seq<Seq<u8>>) -> bool {
        forall|i: int| 0 <= i < drawn.len() ==> self.pool.contains(#[trigger] drawn[i])
    }

    /// Whether drawing `drawn` from the pool completes the assembly with
    /// `out` laid.
    pub open spec fn assembles(self, drawn: Seq<Seq<u8>>, out: Seq<u8>) -> bool {
        &&& self.draws(drawn)
        &&& self.after(drawn) matches Stage::Laid { buf, count } && buf == out && count
            >= self.target
    }

    /// Whether `out` is a possible output of the plan.
    pub open spec fn yields(self, out: Seq<u8>) -> bool {
        exists|drawn: Seq<Seq<u8>>| #[trigger] self.assembles(drawn, out)
    }

    /// Whether drawing `drawn` from the pool leaves bytes that are not UTF-8
    /// where characters are counted.
    pub open spec fn breaks(self, drawn: Seq<Seq<u8>>) -> bool {
        self.draws(drawn) && self.after(drawn) is Broken
    }

    /// Whether drawing `drawn` from the pool ends in a round that does not
    /// advance the length.
    pub open spec fn stalls(self, drawn: Seq<Seq<u8>>) -> bool {
        self.draws(drawn) && self.after(drawn) is Stalled
    }

    /// Whether some draw leaves bytes that are not UTF-8 where characters
    /// are counted.
    pub open spec fn may_break(self) -> bool {
        exists|drawn: Seq<Seq<u8>>| #[trigger] self.breaks(drawn)
    }

    /// Whether some draw ends in a round that does not advance the length.
    pub open spec fn may_stall(self) -> bool {
        exists|drawn: Seq<Seq<u8>>| #[trigger] self.stalls(drawn)
    }

    /// Whether every token and the separator are UTF-8.
    pub open spec fn textual(self) -> bool {
        &&& forall|i: int| 0 <= i < self.pool.len() ==> valid_utf8(#[trigger] self.pool[i])
        &&& valid_utf8(self.sep())
    }

    /// Whether every round lays at least one byte: no token is empty, or a
    /// separator that is not empty was asked for.
    pub open spec fn advancing(self) -> bool {
        ||| forall|i: int| 0 <= i < self.pool.len() ==> (#[trigger] self.pool[i]).len() > 0
        ||| self.separator is Some && self.sep().len() > 0
    }

    /// Whether no draw can fail: tokens are what is counted; or bytes are
    /// counted and every round lays one; or characters are counted, every
    /// piece is UTF-8 and every round lays a byte.
    pub open spec fn steady(self) -> bool {
        match self.limit {
            StrictLimit::Unbounded => true,
            StrictLimit::ByteLimit => self.advancing(),
            StrictLimit::StringLimit => self.textual() && self.advancing(),
        }
    }

    /// Whether no token and no separator adds more than `w` to the counted
    /// length.
    pub open spec fn pieces_within(self, w: nat) -> bool {
        &&& forall|i: int|
            0 <= i < self.pool.len() ==> self.limit.weighs(#[trigger] self.pool[i], w)
        &&& self.limit.weighs(self.sep(), w)
    }

    /// Whether what any token or the separator adds to the counted length
    /// is a multiple of `d`.
    pub open spec fn pieces_step(self, d: nat) -> bool {
        &&& forall|i: int|
            0 <= i < self.pool.len() ==> self.limit.steps(#[trigger] self.pool[i], d)
        &&& self.limit.steps(self.sep(), d)
    }

    /// Whether a buffer and its counted length belong together.
    pub open spec fn coherent(self, buf: Seq<u8>, count: nat) -> bool {
        match self.limit {
            StrictLimit::ByteLimit => count == buf.len(),
            StrictLimit::StringLimit => valid_utf8(buf) && count == decode_utf8(buf).len(),
            StrictLimit::Unbounded => true,
        }
    }

    /// What is laid after the rounds of `pieces` where tokens are counted:
    /// the pieces joined by the separator, and one more separator while the
    /// target is not reached.
    pub open spec fn counted(self, pieces: Seq<Seq<u8>>) -> Seq<u8> {
        if 0 < pieces.len() < self.target {
            joined(pieces, self.sep()) + self.sep()
        } else {
            joined(pieces, self.sep())
        }
    }

    /// As many copies of the pool's first token as the target says, joined
    /// by the separator.
    pub open spec fn uniform(self) -> Seq<u8> {
        joined(copies(self.pool[0], self.target), self.sep())
    }

    /// Whether the pool holds a single token and the plan lays exactly the
    /// target's number of copies of it: tokens are counted; or bytes or
    /// characters are counted, no separator bytes are laid and the token
    /// counts for one; or bytes are counted, no separator bytes are laid and
    /// the target is at most one.
    pub open spec fn repeats(self) -> bool {
        &&& self.pool.len() == 1
        &&& match self.limit {
            StrictLimit::Unbounded => true,
            StrictLimit::ByteLimit => self.sep().len() == 0 && (self.pool[0].len() == 1
                || self.target == 0 || (self.target == 1 && self.pool[0].len() >= 1)),
            StrictLimit::StringLimit => self.sep().len() == 0 && self.limit.unit(self.pool[0]),
        }
    }

    /// Whether every token is the UTF-8 encoding of a single character and
    /// the separator is UTF-8.
    pub open spec fn lettered(self) -> bool {
        &&& forall|i: int|
            0 <= i < self.pool.len() ==> valid_utf8(#[trigger] self.pool[i]) && decode_utf8(
                self.pool[i],
            ).len() == 1
        &&& valid_utf8(self.sep())
    }

    /// The number of characters in the target's number of one-character
    /// tokens joined by the separator.
    pub open spec fn spelled(self) -> nat {
        if self.target == 0 {
            0
        } else {
            (self.target + (self.target - 1) * decode_utf8(self.sep()).len()) as nat
        }
    }

    /// What holds of the characters of every output that is read as text.
    pub open spec fn spells(self, text: Seq<char>) -> bool {
        &&& self.limit is StringLimit ==> text.len() >= self.target && (self.pieces_within(1)
            ==> text.len() == self.target)
        &&& self.limit is Unbounded && self.lettered() ==> text.len() == self.spelled()
    }

    /// What holds of every output of the plan, whatever was drawn.
    pub open spec fn shapes(self, out: Seq<u8>) -> bool {
        &&& exists|laid: Seq<Seq<u8>>| self.draws(laid) && #[trigger] self.interleaves(laid, out)
        &&& self.limit is ByteLimit ==> out.len() >= self.target && (self.pieces_within(1)
            ==> out.len() == self.target)
        &&& self.limit is StringLimit ==> valid_utf8(out) && decode_utf8(out).len() >= self.target
            && (self.pieces_within(1) ==> decode_utf8(out).len() == self.target)
        &&& self.limit is Unbounded ==> exists|laid: Seq<Seq<u8>>|
            #[trigger] self.draws(laid) && laid.len() == self.target && out == joined(
                laid,
                self.sep(),
            )
        &&& self.limit is Unbounded && self.lettered() ==> valid_utf8(out) && decode_utf8(
            out,
        ).len() == self.spelled()
        &&& self.repeats() ==> out == self.uniform()
    }
}

} // verus!

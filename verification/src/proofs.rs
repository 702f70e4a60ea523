//! What follows from the model of an assembly for every output, whatever
//! tokens are drawn.
use crate::plan::{copies, joined, Plan, Stage, StrictLimit};
use crate::tokens::{item_tokens, lemma_text_tokens, text_tokens};
use crate::utf8::{lemma_decode_concat, lemma_decode_nonempty};
use vstd::arithmetic::div_mod::{lemma_mod_adds, lemma_small_mod, lemma_sub_mod_noop};
use vstd::prelude::*;
use vstd::utf8::*;

verus! {

/// Drawing one more token: the rounds so far stand, and the token takes a
/// round if the length is still short of the target.
pub proof fn lemma_after_push(plan: Plan, drawn: Seq<Seq<u8>>, token: Seq<u8>)
    ensures
        plan.after(drawn.push(token)) == match plan.after(drawn) {
            Stage::Laid { buf, count } => if count < plan.target {
                plan.round(buf, count, token)
            } else {
                Stage::Laid { buf, count }
            },
            failed => failed,
        },
        plan.draws(drawn) && plan.pool.contains(token) ==> plan.draws(drawn.push(token)),
{
    assert(drawn.push(token).drop_last() =~= drawn);
    assert(drawn.push(token).last() == token);
}

/// A round that goes through leaves a buffer and a length that belong
/// together, and a greater length than before.
pub proof fn lemma_round_coherent(plan: Plan, buf: Seq<u8>, count: nat, token: Seq<u8>)
    ensures
        plan.round(buf, count, token) matches Stage::Laid { buf: b, count: c } ==> plan.coherent(
            b,
            c,
        ) && c > count,
{
}

/// Whatever was drawn, the bytes laid and their counted length belong
/// together.
pub proof fn lemma_after_coherent(plan: Plan, drawn: Seq<Seq<u8>>)
    ensures
        plan.after(drawn) matches Stage::Laid { buf, count } ==> plan.coherent(buf, count),
    decreases drawn.len(),
{
    if drawn.len() == 0 {
        assert(decode_utf8(Seq::<u8>::empty()) =~= Seq::<char>::empty());
    } else {
        lemma_after_coherent(plan, drawn.drop_last());
        match plan.after(drawn.drop_last()) {
            Stage::Laid { buf, count } => {
                lemma_round_coherent(plan, buf, count, drawn.last());
            },
            _ => {},
        }
    }
}

/// Under a steady plan a round on a token of the pool goes through.
pub proof fn lemma_round_steady(plan: Plan, buf: Seq<u8>, count: nat, token: Seq<u8>)
    requires
        plan.steady(),
        plan.coherent(buf, count),
        count < plan.target,
        plan.pool.contains(token),
    ensures
        plan.round(buf, count, token) is Laid,
{
    let i = choose|i: int| 0 <= i < plan.pool.len() && plan.pool[i] == token;
    assert(plan.pool[i] == token);
    let with_token = buf + token;
    let with_sep = with_token + plan.sep();
    match plan.limit {
        StrictLimit::Unbounded => {},
        StrictLimit::ByteLimit => {},
        StrictLimit::StringLimit => {
            lemma_decode_concat(buf, token);
            lemma_decode_concat(with_token, plan.sep());
            if token.len() > 0 {
                lemma_decode_nonempty(token);
            }
            if plan.sep().len() > 0 {
                lemma_decode_nonempty(plan.sep());
            }
        },
    }
}

/// Under a steady plan no draw from the pool fails.
pub proof fn lemma_after_steady(plan: Plan, drawn: Seq<Seq<u8>>)
    requires
        plan.steady(),
        plan.draws(drawn),
    ensures
        plan.after(drawn) is Laid,
    decreases drawn.len(),
{
    if drawn.len() > 0 {
        let front = drawn.drop_last();
        assert forall|i: int| 0 <= i < front.len() implies plan.pool.contains(
            #[trigger] front[i],
        ) by {
            assert(front[i] == drawn[i]);
        }
        lemma_after_steady(plan, front);
        lemma_after_coherent(plan, front);
        match plan.after(front) {
            Stage::Laid { buf, count } => {
                if count < plan.target {
                    assert(plan.pool.contains(drawn[drawn.len() - 1]));
                    lemma_round_steady(plan, buf, count, drawn.last());
                }
            },
            _ => {},
        }
    }
}

/// Where bytes or characters are counted and neither the token nor the
/// separator adds more than `w`, a round that starts short of the target
/// ends less than `w` beyond it.
pub proof fn lemma_round_within(plan: Plan, buf: Seq<u8>, count: nat, token: Seq<u8>, w: nat)
    requires
        !(plan.limit is Unbounded),
        plan.coherent(buf, count),
        count < plan.target,
        w >= 1,
        plan.limit.weighs(token, w),
        plan.limit.weighs(plan.sep(), w),
    ensures
        plan.round(buf, count, token) matches Stage::Laid { buf: b, count: c } ==> c < plan.target
            + w,
{
    let with_token = buf + token;
    if plan.limit is StringLimit {
        lemma_decode_concat(buf, token);
        lemma_decode_concat(with_token, plan.sep());
    }
}

/// Where bytes or characters are counted and no piece adds more than `w`,
/// the counted length never gets `w` or more beyond the target.
pub proof fn lemma_after_within(plan: Plan, drawn: Seq<Seq<u8>>, w: nat)
    requires
        !(plan.limit is Unbounded),
        w >= 1,
        plan.pieces_within(w),
        plan.draws(drawn),
    ensures
        plan.after(drawn) matches Stage::Laid { buf, count } ==> count < plan.target + w,
    decreases drawn.len(),
{
    if drawn.len() > 0 {
        let front = drawn.drop_last();
        assert forall|i: int| 0 <= i < front.len() implies plan.pool.contains(
            #[trigger] front[i],
        ) by {
            assert(front[i] == drawn[i]);
        }
        lemma_after_within(plan, front, w);
        lemma_after_coherent(plan, front);
        match plan.after(front) {
            Stage::Laid { buf, count } => {
                if count < plan.target {
                    let token = drawn.last();
                    assert(plan.pool.contains(drawn[drawn.len() - 1]));
                    let i = choose|i: int| 0 <= i < plan.pool.len() && plan.pool[i] == token;
                    assert(plan.limit.weighs(plan.pool[i], w));
                    lemma_round_within(plan, buf, count, token, w);
                }
            },
            _ => {},
        }
    }
}

/// Where bytes are counted, a completed output has at least as many bytes
/// as the target says, and fewer than `w` more if no token and no separator
/// is longer than `w` bytes.  With `w` = 1 the output has exactly the
/// target's number of bytes.
pub proof fn lemma_byte_limit_length(plan: Plan, drawn: Seq<Seq<u8>>, out: Seq<u8>, w: nat)
    requires
        plan.limit is ByteLimit,
        plan.assembles(drawn, out),
        w >= 1,
        plan.pieces_within(w),
    ensures
        plan.target <= out.len() < plan.target + w,
{
    lemma_after_coherent(plan, drawn);
    lemma_after_within(plan, drawn, w);
}

/// Where characters are counted, a completed output is UTF-8 and encodes at
/// least as many characters as the target says.
pub proof fn lemma_string_limit_text(plan: Plan, drawn: Seq<Seq<u8>>, out: Seq<u8>)
    requires
        plan.limit is StringLimit,
        plan.assembles(drawn, out),
    ensures
        valid_utf8(out),
        decode_utf8(out).len() >= plan.target,
{
    lemma_after_coherent(plan, drawn);
}

/// Where characters are counted and every token and the separator are UTF-8
/// of at most `w` characters, a completed output encodes fewer than `w`
/// characters more than the target says.  With `w` = 1 it encodes exactly
/// the target's number of characters, however many bytes they take.
pub proof fn lemma_string_limit_length(plan: Plan, drawn: Seq<Seq<u8>>, out: Seq<u8>, w: nat)
    requires
        plan.limit is StringLimit,
        plan.assembles(drawn, out),
        w >= 1,
        plan.pieces_within(w),
    ensures
        valid_utf8(out),
        plan.target <= decode_utf8(out).len() < plan.target + w,
{
    lemma_after_coherent(plan, drawn);
    lemma_after_within(plan, drawn, w);
}

/// Where bytes or characters are counted in multiples of `d`, a round that
/// starts on a multiple of `d` ends on one.
proof fn lemma_round_grid(plan: Plan, buf: Seq<u8>, count: nat, token: Seq<u8>, d: nat)
    requires
        !(plan.limit is Unbounded),
        d >= 1,
        plan.coherent(buf, count),
        count % d == 0,
        plan.limit.steps(token, d),
        plan.limit.steps(plan.sep(), d),
    ensures
        plan.round(buf, count, token) matches Stage::Laid { buf: b, count: c } ==> c % d == 0,
{
    let with_token = buf + token;
    let with_sep = with_token + plan.sep();
    if plan.limit is StringLimit {
        lemma_decode_concat(buf, token);
        lemma_decode_concat(with_token, plan.sep());
    }
    let a = plan.limit.count(0, buf) as int;
    let t = plan.limit.count(0, token) as int;
    let s = plan.limit.count(0, plan.sep()) as int;
    lemma_mod_adds(a, t, d as int);
    lemma_mod_adds(a + t, s, d as int);
}

/// Where bytes or characters are counted and every piece adds a multiple of
/// `d`, the counted length is always a multiple of `d`.
proof fn lemma_after_grid(plan: Plan, drawn: Seq<Seq<u8>>, d: nat)
    requires
        !(plan.limit is Unbounded),
        d >= 1,
        plan.pieces_step(d),
        plan.draws(drawn),
    ensures
        plan.after(drawn) matches Stage::Laid { buf, count } ==> count % d == 0,
    decreases drawn.len(),
{
    if drawn.len() > 0 {
        let front = drawn.drop_last();
        assert forall|i: int| 0 <= i < front.len() implies plan.pool.contains(
            #[trigger] front[i],
        ) by {
            assert(front[i] == drawn[i]);
        }
        lemma_after_grid(plan, front, d);
        lemma_after_coherent(plan, front);
        match plan.after(front) {
            Stage::Laid { buf, count } => {
                if count < plan.target {
                    let token = drawn.last();
                    assert(plan.pool.contains(drawn[drawn.len() - 1]));
                    let i = choose|i: int| 0 <= i < plan.pool.len() && plan.pool[i] == token;
                    assert(plan.limit.steps(plan.pool[i], d));
                    lemma_round_grid(plan, buf, count, token, d);
                }
            },
            _ => {},
        }
    }
}

/// Where bytes or characters are counted, every token and the separator add
/// either nothing or exactly `d`, and the target is a multiple of `d`, a
/// completed output has exactly the target's length.
pub proof fn lemma_exact_length(plan: Plan, drawn: Seq<Seq<u8>>, out: Seq<u8>, d: nat)
    requires
        !(plan.limit is Unbounded),
        d >= 1,
        plan.pieces_within(d),
        plan.pieces_step(d),
        plan.target % d == 0,
        plan.assembles(drawn, out),
    ensures
        plan.limit is ByteLimit ==> out.len() == plan.target,
        plan.limit is StringLimit ==> valid_utf8(out) && decode_utf8(out).len() == plan.target,
{
    lemma_after_coherent(plan, drawn);
    lemma_after_within(plan, drawn, d);
    lemma_after_grid(plan, drawn, d);
    let c = plan.limit.count(0, out) as int;
    let t = plan.target as int;
    lemma_sub_mod_noop(c, t, d as int);
    lemma_small_mod(0, d);
    lemma_small_mod((c - t) as nat, d);
}

/// With an empty pool nothing can be drawn, so no output is possible unless
/// the target is zero.
pub proof fn lemma_empty_pool(plan: Plan, out: Seq<u8>)
    requires
        plan.pool.len() == 0,
        plan.target > 0,
    ensures
        !plan.yields(out),
{
    if plan.yields(out) {
        let drawn = choose|drawn: Seq<Seq<u8>>| #[trigger] plan.assembles(drawn, out);
        if drawn.len() > 0 {
            assert(plan.pool.contains(drawn[0]));
        }
    }
}

/// With a target of zero nothing is laid, whatever comes up.
pub proof fn lemma_zero_target(plan: Plan, drawn: Seq<Seq<u8>>)
    requires
        plan.target == 0,
    ensures
        plan.after(drawn) == (Stage::Laid { buf: Seq::empty(), count: 0 }),
    decreases drawn.len(),
{
    if drawn.len() > 0 {
        lemma_zero_target(plan, drawn.drop_last());
    }
}

/// Where every token and the separator are UTF-8, so is whatever is laid.
pub proof fn lemma_after_textual(plan: Plan, drawn: Seq<Seq<u8>>)
    requires
        plan.textual(),
        plan.draws(drawn),
    ensures
        plan.after(drawn) matches Stage::Laid { buf, count } ==> valid_utf8(buf),
    decreases drawn.len(),
{
    if drawn.len() > 0 {
        let front = drawn.drop_last();
        assert forall|i: int| 0 <= i < front.len() implies plan.pool.contains(
            #[trigger] front[i],
        ) by {
            assert(front[i] == drawn[i]);
        }
        lemma_after_textual(plan, front);
        match plan.after(front) {
            Stage::Laid { buf, count } => {
                let token = drawn.last();
                assert(plan.pool.contains(drawn[drawn.len() - 1]));
                let i = choose|i: int| 0 <= i < plan.pool.len() && plan.pool[i] == token;
                assert(valid_utf8(plan.pool[i]));
                valid_utf8_concat(buf, token);
                valid_utf8_concat(buf + token, plan.sep());
            },
            _ => {},
        }
    }
}

/// Where tokens are counted, every draw goes through: after the rounds of
/// the first tokens, as many as the target allows, these lie joined by the
/// separator, with one more separator behind them while the target is not
/// reached.
pub proof fn lemma_counted_rounds(plan: Plan, drawn: Seq<Seq<u8>>)
    requires
        plan.limit is Unbounded,
    ensures
        ({
            let m = if drawn.len() <= plan.target {
                drawn.len()
            } else {
                plan.target
            };
            plan.after(drawn) == (Stage::Laid {
                buf: plan.counted(drawn.subrange(0, m as int)),
                count: m,
            })
        }),
    decreases drawn.len(),
{
    if drawn.len() > 0 {
        let front = drawn.drop_last();
        lemma_counted_rounds(plan, front);
        if front.len() < plan.target {
            assert(front.subrange(0, front.len() as int) =~= front);
            assert(drawn.subrange(0, drawn.len() as int) =~= drawn);
            let buf = plan.counted(front);
            let with_token = buf + drawn.last();
            assert(with_token =~= joined(drawn, plan.sep()));
            assert(with_token + Seq::<u8>::empty() =~= with_token);
        } else {
            assert(drawn.subrange(0, plan.target as int) =~= front.subrange(
                0,
                plan.target as int,
            ));
        }
    }
}

/// Where tokens are counted, a completed output is made of exactly the
/// target's number of tokens, joined by the separator: one separator between
/// every two neighbouring tokens, so one fewer than tokens, and none behind
/// the last token.
pub proof fn lemma_counted_layout(plan: Plan, drawn: Seq<Seq<u8>>, out: Seq<u8>)
    requires
        plan.limit is Unbounded,
        plan.assembles(drawn, out),
    ensures
        drawn.len() >= plan.target,
        plan.draws(drawn.subrange(0, plan.target as int)),
        out == joined(drawn.subrange(0, plan.target as int), plan.sep()),
{
    lemma_counted_rounds(plan, drawn);
    let laid = drawn.subrange(0, plan.target as int);
    assert forall|i: int| 0 <= i < laid.len() implies plan.pool.contains(#[trigger] laid[i]) by {
        assert(laid[i] == drawn[i]);
    }
}

/// Pieces of one character each, joined by a separator, are UTF-8 and have
/// one character for each piece and the separator's characters between
/// every two neighbours.
pub proof fn lemma_joined_chars(pieces: Seq<Seq<u8>>, sep: Seq<u8>)
    requires
        forall|i: int|
            0 <= i < pieces.len() ==> valid_utf8(#[trigger] pieces[i]) && decode_utf8(
                pieces[i],
            ).len() == 1,
        valid_utf8(sep),
    ensures
        valid_utf8(joined(pieces, sep)),
        decode_utf8(joined(pieces, sep)).len() == if pieces.len() == 0 {
            0
        } else {
            pieces.len() + (pieces.len() - 1) * decode_utf8(sep).len()
        },
    decreases pieces.len(),
{
    if pieces.len() == 0 {
        assert(decode_utf8(Seq::<u8>::empty()) =~= Seq::<char>::empty());
    } else if pieces.len() == 1 {
        let k = decode_utf8(sep).len() as int;
        let n = pieces.len() as int;
        assert((n - 1) * k == 0) by (nonlinear_arith)
            requires
                n == 1,
        ;
    } else {
        let front = pieces.drop_last();
        assert forall|i: int| 0 <= i < front.len() implies valid_utf8(#[trigger] front[i])
            && decode_utf8(front[i]).len() == 1 by {
            assert(front[i] == pieces[i]);
        }
        lemma_joined_chars(front, sep);
        lemma_decode_concat(joined(front, sep), sep);
        lemma_decode_concat(joined(front, sep) + sep, pieces.last());
        let k = decode_utf8(sep).len() as int;
        let n = pieces.len() as int;
        assert(front.len() == n - 1);
        assert((n - 1) * k == (n - 2) * k + k) by (nonlinear_arith);
        assert(decode_utf8(joined(front, sep)).len() == (n - 1) + (n - 2) * k);
    }
}

/// Where tokens are counted, every token is one character and the separator
/// is UTF-8, a completed output is UTF-8 and has one character for each
/// token and the separator's characters between every two neighbours.
pub proof fn lemma_counted_text(plan: Plan, drawn: Seq<Seq<u8>>, out: Seq<u8>)
    requires
        plan.limit is Unbounded,
        plan.lettered(),
        plan.assembles(drawn, out),
    ensures
        valid_utf8(out),
        decode_utf8(out).len() == plan.spelled(),
{
    lemma_counted_layout(plan, drawn, out);
    let laid = drawn.subrange(0, plan.target as int);
    assert forall|i: int| 0 <= i < laid.len() implies valid_utf8(#[trigger] laid[i])
        && decode_utf8(laid[i]).len() == 1 by {
        assert(plan.pool.contains(laid[i]));
        let k = choose|k: int| 0 <= k < plan.pool.len() && plan.pool[k] == laid[i];
        assert(valid_utf8(plan.pool[k]));
    }
    lemma_joined_chars(laid, plan.sep());
}

/// Whatever was drawn and however the length is counted, what is laid is the
/// tokens that took a round, in the order in which they came up, joined by
/// the separator.  While the length is short of the target every token drawn
/// has taken a round and a separator follows the last one; behind the last
/// token of a completed output there is a separator only if laying it is
/// what brought the length to the target.
pub proof fn lemma_layout(plan: Plan, drawn: Seq<Seq<u8>>)
    ensures
        plan.rounds(drawn) <= drawn.len(),
        plan.after(drawn) matches Stage::Laid { buf, count } ==> {
            let laid = drawn.subrange(0, plan.rounds(drawn) as int);
            &&& plan.interleaves(laid, buf)
            &&& count < plan.target ==> laid == drawn && buf == joined(drawn, plan.sep()) + (
            if drawn.len() > 0 {
                plan.sep()
            } else {
                Seq::empty()
            })
        },
    decreases drawn.len(),
{
    if drawn.len() > 0 {
        let front = drawn.drop_last();
        lemma_layout(plan, front);
        match plan.after(front) {
            Stage::Laid { buf, count } => {
                let m = plan.rounds(front);
                if count < plan.target {
                    assert(front.subrange(0, front.len() as int) =~= front);
                    assert(drawn.subrange(0, drawn.len() as int) =~= drawn);
                    let with_token = buf + drawn.last();
                    assert(with_token =~= joined(drawn, plan.sep()));
                    assert(with_token + Seq::<u8>::empty() =~= with_token);
                } else {
                    assert(drawn.subrange(0, m as int) =~= front.subrange(0, m as int));
                }
            },
            _ => {},
        }
    } else {
        assert(drawn.subrange(0, 0) =~= drawn);
        assert(joined(drawn, plan.sep()) + Seq::<u8>::empty() =~= Seq::<u8>::empty());
    }
}

/// A completed output is made of tokens of the pool, joined by the
/// separator, with or without one more separator behind the last token.
pub proof fn lemma_output_layout(plan: Plan, drawn: Seq<Seq<u8>>, out: Seq<u8>)
    requires
        plan.assembles(drawn, out),
    ensures
        plan.draws(drawn.subrange(0, plan.rounds(drawn) as int)),
        plan.interleaves(drawn.subrange(0, plan.rounds(drawn) as int), out),
{
    lemma_layout(plan, drawn);
    let laid = drawn.subrange(0, plan.rounds(drawn) as int);
    assert forall|i: int| 0 <= i < laid.len() implies plan.pool.contains(#[trigger] laid[i]) by {
        assert(laid[i] == drawn[i]);
    }
}

/// Joining one more copy of a piece.
proof fn lemma_copies_step(piece: Seq<u8>, n: nat, sep: Seq<u8>)
    ensures
        joined(copies(piece, n + 1), sep) == if n == 0 {
            piece
        } else {
            joined(copies(piece, n), sep) + sep + piece
        },
{
    assert(copies(piece, n + 1).drop_last() =~= copies(piece, n));
}

/// With a single token that counts for one and no separator bytes, every
/// round lays one more copy of the token.
proof fn lemma_unit_rounds(plan: Plan, drawn: Seq<Seq<u8>>)
    requires
        plan.pool.len() == 1,
        !(plan.limit is Unbounded),
        plan.limit.unit(plan.pool[0]),
        plan.sep().len() == 0,
        plan.draws(drawn),
    ensures
        ({
            let m = if drawn.len() <= plan.target {
                drawn.len()
            } else {
                plan.target
            };
            plan.after(drawn) == (Stage::Laid {
                buf: joined(copies(plan.pool[0], m), plan.sep()),
                count: m,
            })
        }),
    decreases drawn.len(),
{
    if drawn.len() > 0 {
        let front = drawn.drop_last();
        let token = plan.pool[0];
        assert forall|i: int| 0 <= i < front.len() implies plan.pool.contains(
            #[trigger] front[i],
        ) by {
            assert(front[i] == drawn[i]);
        }
        lemma_unit_rounds(plan, front);
        lemma_after_coherent(plan, front);
        if front.len() < plan.target {
            let m = front.len();
            let buf = joined(copies(token, m), plan.sep());
            assert(plan.pool.contains(drawn[drawn.len() - 1]));
            assert(drawn.last() == token);
            lemma_copies_step(token, m, plan.sep());
            assert(plan.sep() =~= Seq::<u8>::empty());
            assert(buf + token =~= joined(copies(token, m + 1), plan.sep()));
            assert((buf + token) + plan.sep() =~= buf + token);
            if plan.limit is StringLimit {
                lemma_decode_concat(buf, token);
            }
        }
    }
}

/// With a target of one, bytes counted, no separator bytes and a single
/// token that is not empty, the first round lays the token and completes
/// the output.
proof fn lemma_one_round(plan: Plan, drawn: Seq<Seq<u8>>)
    requires
        plan.pool.len() == 1,
        plan.limit is ByteLimit,
        plan.target == 1,
        plan.pool[0].len() >= 1,
        plan.sep().len() == 0,
        plan.draws(drawn),
        drawn.len() >= 1,
    ensures
        plan.after(drawn) == (Stage::Laid { buf: plan.pool[0], count: plan.pool[0].len() }),
    decreases drawn.len(),
{
    let front = drawn.drop_last();
    assert(plan.pool.contains(drawn[drawn.len() - 1]));
    if front.len() == 0 {
        assert(plan.after(front) == (Stage::Laid { buf: Seq::<u8>::empty(), count: 0 }));
        assert(Seq::<u8>::empty() + drawn.last() =~= plan.pool[0]);
    } else {
        assert forall|i: int| 0 <= i < front.len() implies plan.pool.contains(
            #[trigger] front[i],
        ) by {
            assert(front[i] == drawn[i]);
        }
        lemma_one_round(plan, front);
    }
}

/// A plan that repeats a single token has one output only: the target's
/// number of copies of the token, joined by the separator.  What is drawn
/// makes no difference.
pub proof fn lemma_single_token(plan: Plan, drawn: Seq<Seq<u8>>, out: Seq<u8>)
    requires
        plan.repeats(),
        plan.assembles(drawn, out),
    ensures
        out == plan.uniform(),
{
    let token = plan.pool[0];
    if plan.limit is Unbounded {
        lemma_counted_layout(plan, drawn, out);
        let laid = drawn.subrange(0, plan.target as int);
        assert forall|i: int| 0 <= i < laid.len() implies laid[i] == token by {
            assert(plan.pool.contains(laid[i]));
        }
        assert(laid =~= copies(token, plan.target));
    } else if plan.limit.unit(token) {
        lemma_unit_rounds(plan, drawn);
    } else if plan.target == 0 {
        lemma_zero_target(plan, drawn);
    } else {
        if drawn.len() == 0 {
            assert(false);
        }
        lemma_one_round(plan, drawn);
        assert(copies(token, 1)[0] == token);
    }
}

/// A plan that repeats a single token cannot fail.
pub proof fn lemma_repeats_steady(plan: Plan)
    requires
        plan.repeats(),
    ensures
        plan.target == 0 || (plan.pool.len() > 0 && plan.steady()),
{
    if plan.target > 0 && plan.limit is StringLimit {
        assert(valid_utf8(plan.sep()));
        if plan.pool[0].len() == 0 {
            assert(decode_utf8(plan.pool[0]) =~= Seq::<char>::empty());
        }
    }
}

/// Every possible output of a plan has the shape that its limit gives it.
pub proof fn lemma_yields_shapes(plan: Plan, out: Seq<u8>)
    requires
        plan.yields(out),
    ensures
        plan.shapes(out),
{
    let drawn = choose|drawn: Seq<Seq<u8>>| #[trigger] plan.assembles(drawn, out);
    lemma_after_coherent(plan, drawn);
    lemma_output_layout(plan, drawn, out);
    if plan.limit is ByteLimit && plan.pieces_within(1) {
        lemma_byte_limit_length(plan, drawn, out, 1);
    }
    if plan.limit is StringLimit && plan.pieces_within(1) {
        lemma_string_limit_length(plan, drawn, out, 1);
    }
    if plan.limit is Unbounded {
        lemma_counted_layout(plan, drawn, out);
        assert(plan.draws(drawn.subrange(0, plan.target as int)));
        if plan.lettered() {
            lemma_counted_text(plan, drawn, out);
        }
    }
    if plan.repeats() {
        lemma_single_token(plan, drawn, out);
    }
}

/// A plan over the characters of a text, with a separator that is UTF-8 or
/// none at all, cannot fail under any limit.  If the separator has at most
/// one character, no piece counts for more than one, so where bytes of ASCII
/// text or characters are counted the output has exactly the target's length.
pub proof fn lemma_text_plan(plan: Plan, chars: Seq<char>)
    requires
        plan.pool == text_tokens(chars),
        valid_utf8(plan.sep()),
    ensures
        plan.textual(),
        plan.advancing(),
        plan.steady(),
        plan.lettered(),
        plan.limit is StringLimit && decode_utf8(plan.sep()).len() <= 1 ==> plan.pieces_within(1),
{
    lemma_text_tokens(chars);
}

/// A plan over the items of a list of texts, with a separator that is UTF-8
/// or none at all, lays nothing but UTF-8; if no item is empty it cannot fail
/// under any limit.
pub proof fn lemma_item_plan(plan: Plan, items: Seq<String>)
    requires
        plan.pool == item_tokens(items),
        valid_utf8(plan.sep()),
    ensures
        plan.textual(),
        (forall|i: int| 0 <= i < items.len() ==> (#[trigger] items[i])@.len() > 0)
            ==> plan.advancing() && plan.steady(),
{
    assert forall|i: int| 0 <= i < plan.pool.len() implies valid_utf8(#[trigger] plan.pool[i]) by {
        encode_utf8_valid_utf8(items[i]@);
    }
    if forall|i: int| 0 <= i < items.len() ==> (#[trigger] items[i])@.len() > 0 {
        assert forall|i: int| 0 <= i < plan.pool.len() implies (#[trigger] plan.pool[i]).len()
            > 0 by {
            assert(items[i]@.len() > 0);
            encode_utf8_first_scalar(items[i]@);
        }
    }
}

} // verus!

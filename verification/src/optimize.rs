//! The two peephole passes.
//!
//! The loop unroller replaces every `OpenLoop, Add, EndLoop` and `OpenLoop,
//! Subtract, EndLoop` window by a `SkipNext` guard followed by the body
//! repeated as many times as the next repetition-count entry says.  The
//! run-length coalescer then merges consecutive additive tokens into single
//! weighted tokens.

use crate::tokens::{is_additive, extra_token, OptiToken, Token, TokenType};
use vstd::pervasive::unreached;
use vstd::prelude::*;

verus! {

/// How many tokens of the sequence carry the given discriminant.
pub open spec fn count_tt(ts: Seq<Token>, tt: TokenType) -> int
    decreases ts.len(),
{
    if ts.len() == 0 {
        0
    } else {
        (if ts[0].token_type == tt {
            1int
        } else {
            0int
        }) + count_tt(ts.drop_first(), tt)
    }
}

/// The guard token the unroller inserts before an unrolled body.
pub open spec fn skip_token() -> Token {
    Token { token_type: TokenType::SkipNext, loop_id: 0, loop_layer: 0 }
}

/// Does the sequence start with a trivial loop: an open, one additive token,
/// and the matching end?
pub open spec fn starts_trivial_loop(ts: Seq<Token>) -> bool {
    ts.len() >= 3 && ts[0].token_type == TokenType::OpenLoop && is_additive(ts[1].token_type)
        && ts[2].token_type == TokenType::EndLoop
}

/// The unrolled token stream.  `times` is the repetition-count queue; each
/// trivial loop consumes its front entry.
pub open spec fn unroll_s(ts: Seq<Token>, times: Seq<u16>) -> Seq<Token>
    decreases ts.len(),
{
    if ts.len() == 0 {
        Seq::empty()
    } else if starts_trivial_loop(ts) {
        seq![skip_token()] + Seq::new(times[0] as nat, |j: int| ts[1]) + unroll_s(
            ts.skip(3),
            times.drop_first(),
        )
    } else {
        seq![ts[0]] + unroll_s(ts.drop_first(), times)
    }
}

/// The guard token, built at run time.
fn skip_token_x() -> (r: Token)
    ensures
        r == skip_token(),
{
    Token { token_type: TokenType::SkipNext, loop_id: 0, loop_layer: 0 }
}

/// Removes and returns the front element of a vector.
pub fn pop_first<T>(vec: &mut Vec<T>) -> (r: Option<T>)
    ensures
        old(vec)@.len() == 0 ==> r is None && final(vec)@ == old(vec)@,
        old(vec)@.len() > 0 ==> r == Some(old(vec)@[0]) && final(vec)@ == old(vec)@.drop_first(),
{
    if vec.is_empty() {
        return None;
    }
    Some(vec.remove(0))
}

/// Copies a repetition-count queue.
fn copy_times(v: &Vec<u16>) -> (r: Vec<u16>)
    ensures
        r@ == v@,
{
    let mut r: Vec<u16> = Vec::new();
    let mut i: usize = 0;
    while i < v.len()
        invariant
            i <= v.len(),
            r@ == v@.take(i as int),
        decreases v.len() - i,
    {
        r.push(v[i]);
        proof {
            assert(v@.take(i as int + 1) =~= v@.take(i as int).push(v@[i as int]));
        }
        i += 1;
    }
    proof {
        assert(v@.take(v.len() as int) =~= v@);
    }
    r
}

/// Runs the loop unroller.  The queue must hold an entry for every open
/// token, as the lexer guarantees.
pub fn unroll(tokens: &Vec<Token>, times: &Vec<u16>) -> (r: Vec<Token>)
    requires
        count_tt(tokens@, TokenType::OpenLoop) <= times@.len(),
    ensures
        r@ == unroll_s(tokens@, times@),
{
    let mut out: Vec<Token> = Vec::new();
    let mut rest = copy_times(times);
    let n = tokens.len();
    let mut i: usize = 0;
    proof {
        assert(tokens@.skip(0) =~= tokens@);
        assert(out@ + unroll_s(tokens@, times@) =~= unroll_s(tokens@, times@));
    }
    while i < n
        invariant
            i <= n,
            n == tokens.len(),
            count_tt(tokens@.skip(i as int), TokenType::OpenLoop) <= rest@.len(),
            out@ + unroll_s(tokens@.skip(i as int), rest@) == unroll_s(tokens@, times@),
        decreases n - i,
    {
        let ghost pre = tokens@.skip(i as int);
        proof {
            assert(pre[0] == tokens@[i as int]);
            assert(pre.drop_first() =~= tokens@.skip(i as int + 1));
        }
        let is_open = tokens[i].token_type == TokenType::OpenLoop;
        if is_open && n - i >= 3 && (tokens[i + 1].token_type == TokenType::Add || tokens[i
            + 1].token_type == TokenType::Subtract) && tokens[i + 2].token_type
            == TokenType::EndLoop {
            proof {
                assert(pre.drop_first() =~= pre.skip(1));
                assert(pre.skip(1).drop_first() =~= pre.skip(2));
                assert(pre.skip(2).drop_first() =~= pre.skip(3));
                assert(pre.skip(3) =~= tokens@.skip(i as int + 3));
                assert(pre[1] == tokens@[i as int + 1]);
                assert(pre[2] == tokens@[i as int + 2]);
                assert(pre.skip(1)[0] == pre[1]);
                assert(pre.skip(2)[0] == pre[2]);
                assert(starts_trivial_loop(pre));
                lemma_count_nonneg(pre.skip(3), TokenType::OpenLoop);
                assert(count_tt(pre, TokenType::OpenLoop) == 1 + count_tt(
                    pre.skip(1),
                    TokenType::OpenLoop,
                ));
                assert(count_tt(pre.skip(1), TokenType::OpenLoop) == count_tt(
                    pre.skip(2),
                    TokenType::OpenLoop,
                ));
                assert(count_tt(pre.skip(2), TokenType::OpenLoop) == count_tt(
                    pre.skip(3),
                    TokenType::OpenLoop,
                ));
            }
            let ghost rest_old = rest@;
            let ghost out_base = out@;
            let body = tokens[i + 1];
            let time = match pop_first(&mut rest) {
                Some(t) => t,
                None => unreached(),
            };
            out.push(skip_token_x());
            let mut j: u16 = 0;
            while j < time
                invariant
                    j <= time,
                    out@ == out_base + seq![skip_token()] + Seq::new(
                        j as nat,
                        |k: int| tokens@[i as int + 1],
                    ),
                    body == tokens@[i as int + 1],
                decreases time - j,
            {
                out.push(body);
                proof {
                    assert(Seq::new(j as nat + 1, |k: int| tokens@[i as int + 1]) =~= Seq::new(
                        j as nat,
                        |k: int| tokens@[i as int + 1],
                    ).push(tokens@[i as int + 1]));
                    assert(out@ =~= out_base + seq![skip_token()] + Seq::new(
                        j as nat + 1,
                        |k: int| tokens@[i as int + 1],
                    ));
                }
                j += 1;
            }
            proof {
                assert(unroll_s(pre, rest_old) == seq![skip_token()] + Seq::new(
                    rest_old[0] as nat,
                    |k: int| pre[1],
                ) + unroll_s(pre.skip(3), rest_old.drop_first()));
                assert(out@ + unroll_s(tokens@.skip(i as int + 3), rest@) =~= out_base + unroll_s(
                    pre,
                    rest_old,
                ));
            }
            i += 3;
        } else {
            out.push(tokens[i]);
            proof {
                assert(seq![pre[0]] + unroll_s(pre.drop_first(), rest@) == unroll_s(pre, rest@));
                assert(out@ + unroll_s(tokens@.skip(i as int + 1), rest@) =~= unroll_s(
                    tokens@,
                    times@,
                ));
                lemma_count_skip_one(tokens@, i as int, TokenType::OpenLoop);
            }
            i += 1;
        }
    }
    proof {
        assert(tokens@.skip(n as int) =~= Seq::<Token>::empty());
        assert(out@ =~= unroll_s(tokens@, times@));
    }
    out
}

/// Magnitude of the signed run accumulator.
pub open spec fn abs_i(rep: int) -> int {
    if rep >= 0 {
        rep
    } else {
        -rep
    }
}

/// The weighted token a flush emits: the run's net direction with the
/// position data of the last additive token seen, weighted by the magnitude
/// of the net delta reduced to the eight-bit cell width.
pub open spec fn flush_tok(temp: Token, rep: int) -> OptiToken {
    OptiToken {
        og_token: Token {
            token_type: if rep >= 0 {
                TokenType::Add
            } else {
                TokenType::Subtract
            },
            loop_id: temp.loop_id,
            loop_layer: temp.loop_layer,
        },
        repeated: (abs_i(rep) % 256) as u8,
    }
}

/// The coalesced stream: `rep` is the running signed accumulator and `temp`
/// the last additive token seen.  Every non-additive token flushes a non-zero
/// accumulator before being emitted with weight one, and a run still open at
/// the end of the input is flushed as well.
pub open spec fn coalesce_s(ts: Seq<Token>, rep: int, temp: Token) -> Seq<OptiToken>
    decreases ts.len(),
{
    if ts.len() == 0 {
        if rep != 0 {
            seq![flush_tok(temp, rep)]
        } else {
            Seq::empty()
        }
    } else {
        let t = ts[0];
        if t.token_type == TokenType::Add {
            coalesce_s(ts.drop_first(), rep + 1, t)
        } else if t.token_type == TokenType::Subtract {
            coalesce_s(ts.drop_first(), rep - 1, t)
        } else {
            (if rep != 0 {
                seq![flush_tok(temp, rep)]
            } else {
                Seq::empty()
            }) + seq![OptiToken { og_token: t, repeated: 1 }] + coalesce_s(ts.drop_first(), 0, temp)
        }
    }
}

/// The run-length coalescer's output on a token stream.
pub open spec fn coalesce_spec(ts: Seq<Token>) -> Seq<OptiToken> {
    coalesce_s(ts, 0, extra_token())
}

/// Builds the flushed weighted token at run time.
fn flush_x(temp: Token, rep: i128) -> (r: OptiToken)
    requires
        rep > i128::MIN,
    ensures
        r == flush_tok(temp, rep as int),
{
    let mag: i128 = if rep < 0 {
        -rep
    } else {
        rep
    };
    OptiToken {
        og_token: Token {
            token_type: if rep >= 0 {
                TokenType::Add
            } else {
                TokenType::Subtract
            },
            loop_id: temp.loop_id,
            loop_layer: temp.loop_layer,
        },
        repeated: (mag % 256) as u8,
    }
}

/// Runs the run-length coalescer.
pub fn coalesce(tokens: &Vec<Token>) -> (r: Vec<OptiToken>)
    ensures
        r@ == coalesce_spec(tokens@),
{
    let mut out: Vec<OptiToken> = Vec::new();
    let mut rep: i128 = 0;
    let mut temp: Token = Token { token_type: TokenType::Extra, loop_id: 0, loop_layer: 0 };
    let n = tokens.len();
    let mut i: usize = 0;
    proof {
        assert(tokens@.skip(0) =~= tokens@);
        assert(out@ + coalesce_spec(tokens@) =~= coalesce_spec(tokens@));
    }
    while i < n
        invariant
            i <= n,
            n == tokens.len(),
            -(i as int) <= rep as int <= i as int,
            out@ + coalesce_s(tokens@.skip(i as int), rep as int, temp) == coalesce_spec(tokens@),
        decreases n - i,
    {
        let t = tokens[i];
        proof {
            assert(tokens@.skip(i as int)[0] == tokens@[i as int]);
            assert(tokens@.skip(i as int).drop_first() =~= tokens@.skip(i as int + 1));
        }
        if t.token_type == TokenType::Add {
            temp = t;
            rep = rep + 1;
        } else if t.token_type == TokenType::Subtract {
            temp = t;
            rep = rep - 1;
        } else {
            if rep != 0 {
                out.push(flush_x(temp, rep));
                rep = 0;
            }
            out.push(OptiToken { og_token: t, repeated: 1 });
            proof {
                assert(out@ + coalesce_s(tokens@.skip(i as int + 1), 0, temp) =~= coalesce_spec(
                    tokens@,
                ));
            }
        }
        i += 1;
    }
    proof {
        assert(tokens@.skip(n as int) =~= Seq::<Token>::empty());
    }
    if rep != 0 {
        out.push(flush_x(temp, rep));
    }
    proof {
        assert(out@ =~= coalesce_spec(tokens@));
    }
    out
}

/// Turns a weighted stream back into unit tokens: each weighted token becomes
/// as many copies of its token as its weight says.
pub open spec fn expand(os: Seq<OptiToken>) -> Seq<Token>
    decreases os.len(),
{
    if os.len() == 0 {
        Seq::empty()
    } else {
        Seq::new(os[0].repeated as nat, |k: int| os[0].og_token) + expand(os.drop_first())
    }
}

/// Counts are never negative.
pub proof fn lemma_count_nonneg(ts: Seq<Token>, tt: TokenType)
    ensures
        count_tt(ts, tt) >= 0,
    decreases ts.len(),
{
    if ts.len() > 0 {
        lemma_count_nonneg(ts.drop_first(), tt);
    }
}

/// Dropping the front element lowers the count by at most one.
proof fn lemma_count_skip_one(ts: Seq<Token>, i: int, tt: TokenType)
    requires
        0 <= i < ts.len(),
    ensures
        count_tt(ts.skip(i + 1), tt) <= count_tt(ts.skip(i), tt),
{
    assert(ts.skip(i).drop_first() =~= ts.skip(i + 1));
    lemma_count_nonneg(ts.skip(i + 1), tt);
}

} // verus!
